use vstd::prelude::*;

use crate::align::sum_i32;
use crate::errors::Sbv2CoreError;

verus! {

/// How many phoneme rows each character's feature row is repeated into: every count
/// doubled (the phonemes are interleaved with blanks), and one more for the first unit.
pub open spec fn doubled_counts(word2ph: Seq<i32>) -> Seq<int> {
    Seq::new(word2ph.len(), |k: int| 2 * word2ph[k] + if k == 0 { 1int } else { 0int })
}

/// Row `i` repeated `reps[i]` times, for each `i` in order: the source row of every output row.
pub open spec fn repeated_rows(reps: Seq<int>) -> Seq<int>
    decreases reps.len(),
{
    if reps.len() == 0 {
        seq![]
    } else {
        repeated_rows(reps.drop_last()) + Seq::new(
            (if reps.last() >= 0 { reps.last() } else { 0 }) as nat,
            |k: int| reps.len() - 1,
        )
    }
}

pub open spec fn sum_ints(s: Seq<int>) -> int
    decreases s.len(),
{
    if s.len() == 0 {
        0
    } else {
        sum_ints(s.drop_last()) + s.last()
    }
}

pub open spec fn usizes_view(v: Seq<usize>) -> Seq<int> {
    v.map_values(|x: usize| x as int)
}

/// For each phoneme row of the feature matrix, the character row it is copied from, after
/// the counts are doubled and the first boundary unit gets one more. The counts must hold
/// one entry per character and one per boundary unit.
pub fn broadcast_rows(word2ph: &Vec<i32>, n_chars: usize) -> (r: Result<Vec<usize>, Sbv2CoreError>)
    requires
        forall|k: int| 0 <= k < word2ph@.len() ==> 0 <= #[trigger] word2ph@[k],
    ensures
        r is Ok <==> word2ph@.len() == n_chars + 2,
        r is Ok ==> usizes_view(r->Ok_0@) == repeated_rows(doubled_counts(word2ph@)),
        r is Err ==> r->Err_0 is InternalConsistency,
{
    let len = word2ph.len();
    if n_chars > usize::MAX - 2 || len != n_chars + 2 {
        return Err(Sbv2CoreError::InternalConsistency("word2ph length is not character count + 2".to_owned()));
    }
    let ghost reps = doubled_counts(word2ph@);
    let mut out: Vec<usize> = Vec::new();
    let mut i: usize = 0;
    while i < word2ph.len()
        invariant
            reps == doubled_counts(word2ph@),
            i <= word2ph@.len(),
            forall|k: int| 0 <= k < word2ph@.len() ==> 0 <= #[trigger] word2ph@[k],
            usizes_view(out@) == repeated_rows(reps.subrange(0, i as int)),
        decreases word2ph@.len() - i,
    {
        let n: u64 = 2 * (word2ph[i] as u64) + if i == 0 { 1 } else { 0 };
        let ghost before = usizes_view(out@);
        let mut j: u64 = 0;
        while j < n
            invariant
                j <= n,
                usizes_view(out@) == before + Seq::new(j as nat, |k: int| i as int),
            decreases n - j,
        {
            let ghost ov = usizes_view(out@);
            out.push(i);
            assert(usizes_view(out@) =~= ov.push(i as int));
            j = j + 1;
            assert(usizes_view(out@) =~= before + Seq::new(j as nat, |k: int| i as int));
        }
        proof {
            let sub = reps.subrange(0, i + 1);
            assert(sub.drop_last() =~= reps.subrange(0, i as int));
            assert(sub.last() == n);
            assert(Seq::new(j as nat, |k: int| i as int) =~= Seq::new(
                sub.last() as nat,
                |k: int| sub.len() - 1,
            ));
        }
        i = i + 1;
    }
    proof {
        assert(reps.subrange(0, i as int) =~= reps);
    }
    Ok(out)
}

proof fn lemma_repeated_len(reps: Seq<int>)
    requires
        forall|k: int| 0 <= k < reps.len() ==> 0 <= #[trigger] reps[k],
    ensures
        repeated_rows(reps).len() == sum_ints(reps),
    decreases reps.len(),
{
    if reps.len() > 0 {
        lemma_repeated_len(reps.drop_last());
    }
}

proof fn lemma_doubled_sum(w: Seq<i32>, n: int)
    requires
        0 <= n <= w.len(),
    ensures
        sum_ints(doubled_counts(w).subrange(0, n)) == 2 * sum_i32(w.subrange(0, n)) + if n > 0 {
            1int
        } else {
            0int
        },
    decreases n,
{
    if n > 0 {
        lemma_doubled_sum(w, n - 1);
        assert(doubled_counts(w).subrange(0, n).drop_last() =~= doubled_counts(w).subrange(0, n - 1));
        assert(w.subrange(0, n).drop_last() =~= w.subrange(0, n - 1));
    } else {
        assert(doubled_counts(w).subrange(0, 0) =~= seq![]);
        assert(w.subrange(0, 0) =~= seq![]);
    }
}

/// The broadcast feature matrix has one row per phoneme slot: twice the total phoneme
/// count, plus one for the leading boundary.
pub proof fn lemma_broadcast_row_count(word2ph: Seq<i32>)
    requires
        word2ph.len() > 0,
        forall|k: int| 0 <= k < word2ph.len() ==> 0 <= #[trigger] word2ph[k],
    ensures
        repeated_rows(doubled_counts(word2ph)).len() == 2 * sum_i32(word2ph) + 1,
{
    lemma_doubled_sum(word2ph, word2ph.len() as int);
    assert(doubled_counts(word2ph).subrange(0, word2ph.len() as int) =~= doubled_counts(word2ph));
    assert(word2ph.subrange(0, word2ph.len() as int) =~= word2ph);
    lemma_repeated_len(doubled_counts(word2ph));
}

/// The sequence with `item` before, between and after its elements.
pub open spec fn interspersed(s: Seq<i64>, item: i64) -> Seq<i64> {
    Seq::new(2 * s.len() + 1, |k: int| if k % 2 == 1 { s[k / 2] } else { item })
}

/// Puts `item` before, between and after the elements.
pub fn intersperse(v: &Vec<i64>, item: i64) -> (r: Vec<i64>)
    requires
        v@.len() < usize::MAX / 2,
    ensures
        r@ == interspersed(v@, item),
{
    let mut out: Vec<i64> = Vec::new();
    out.push(item);
    let mut i: usize = 0;
    while i < v.len()
        invariant
            i <= v@.len(),
            out@.len() == 2 * i + 1,
            forall|k: int| 0 <= k < 2 * i + 1 ==> #[trigger] out@[k] == interspersed(v@, item)[k],
        decreases v@.len() - i,
    {
        out.push(v[i]);
        out.push(item);
        proof {
            assert forall|k: int| 0 <= k < 2 * (i + 1) + 1 implies #[trigger] out@[k] == interspersed(
                v@,
                item,
            )[k] by {
                if k == 2 * i + 1 {
                    assert(k % 2 == 1 && k / 2 == i);
                } else if k == 2 * i + 2 {
                    assert(k % 2 == 0);
                }
            }
        }
        i = i + 1;
    }
    assert(out@ =~= interspersed(v@, item));
    out
}

} // verus!
