use vstd::prelude::*;

use crate::errors::Sbv2CoreError;
use crate::tone::{pt_view, pts_view};

verus! {

/// The punctuation marks that pass through the phoneme pipeline as phonemes of their own.
pub open spec fn is_punctuation_char(c: char) -> bool {
    c == '!' || c == '?' || c == '…' || c == ',' || c == '.' || c == '\'' || c == '-' || c == '、'
        || c == '。'
}

/// A phoneme that is a single punctuation mark.
pub open spec fn is_punctuation(p: Seq<char>) -> bool {
    p.len() == 1 && is_punctuation_char(p[0])
}

pub fn punctuation_char(c: char) -> (r: bool)
    ensures
        r == is_punctuation_char(c),
{
    c == '!' || c == '?' || c == '…' || c == ',' || c == '.' || c == '\'' || c == '-' || c == '、'
        || c == '。'
}

pub fn punctuation(p: &str) -> (r: bool)
    ensures
        r == is_punctuation(p@),
{
    let cs = crate::text::chars_of(p);
    cs.len() == 1 && punctuation_char(cs[0])
}

pub open spec fn strings_view(v: Seq<String>) -> Seq<Seq<char>> {
    v.map_values(|s: String| s@)
}

/// Aligning the first `n` phonemes: the pairs so far and how many tone pairs were taken.
pub open spec fn align_walk(
    phones: Seq<Seq<char>>,
    pts: Seq<(Seq<char>, i32)>,
    n: nat,
) -> Option<(Seq<(Seq<char>, i32)>, nat)>
    decreases n,
{
    if n == 0 {
        Some((seq![], 0))
    } else {
        match align_walk(phones, pts, (n - 1) as nat) {
            None => None,
            Some(st) => {
                let (res, t) = st;
                let ph = phones[n - 1];
                if t >= pts.len() {
                    Some((res.push((ph, 0i32)), t))
                } else if ph == pts[t as int].0 {
                    Some((res.push((ph, pts[t as int].1)), t + 1))
                } else if is_punctuation(ph) {
                    Some((res.push((ph, 0i32)), t))
                } else {
                    None
                }
            },
        }
    }
}

/// The punctuated phoneme sequence with tones taken from the punctuation-free tone list.
pub open spec fn aligned(phones: Seq<Seq<char>>, pts: Seq<(Seq<char>, i32)>) -> Option<
    Seq<(Seq<char>, i32)>,
> {
    match align_walk(phones, pts, phones.len()) {
        Some(st) => Some(st.0),
        None => None,
    }
}

proof fn lemma_align_fails_on(phones: Seq<Seq<char>>, pts: Seq<(Seq<char>, i32)>, k: nat, m: nat)
    requires
        k <= m,
        align_walk(phones, pts, k) is None,
    ensures
        align_walk(phones, pts, m) is None,
    decreases m - k,
{
    if k < m {
        lemma_align_fails_on(phones, pts, k, (m - 1) as nat);
    }
}

/// Merges the tone-bearing phoneme list into the punctuated phoneme sequence.
pub fn align_tones(phone_with_punct: Vec<String>, phone_tone_list: Vec<(String, i32)>) -> (r: Result<
    Vec<(String, i32)>,
    Sbv2CoreError,
>)
    ensures
        r is Ok <==> aligned(strings_view(phone_with_punct@), pts_view(phone_tone_list@)) is Some,
        r is Ok ==> pts_view(r->Ok_0@) == aligned(
            strings_view(phone_with_punct@),
            pts_view(phone_tone_list@),
        )->0,
        r is Err ==> r->Err_0 is MismatchedPhoneme && exists|j: int|
            0 <= j < phone_with_punct@.len() && r->Err_0->MismatchedPhoneme_0@ == phone_with_punct@[j]@
                && align_walk(
                strings_view(phone_with_punct@),
                pts_view(phone_tone_list@),
                j as nat,
            ) is Some && align_walk(
                strings_view(phone_with_punct@),
                pts_view(phone_tone_list@),
                (j + 1) as nat,
            ) is None,
{
    let ghost phones = strings_view(phone_with_punct@);
    let ghost pts = pts_view(phone_tone_list@);
    let mut result: Vec<(String, i32)> = Vec::new();
    let mut tone_index: usize = 0;
    let n = phone_with_punct.len();
    let mut i: usize = 0;
    while i < n
        invariant
            n == phone_with_punct@.len(),
            i <= n,
            phones == strings_view(phone_with_punct@),
            pts == pts_view(phone_tone_list@),
            align_walk(phones, pts, i as nat) == Some((pts_view(result@), tone_index as nat)),
            tone_index <= i,
            result@.len() == i,
        decreases n - i,
    {
        proof {
            if align_walk(phones, pts, (i + 1) as nat) is None {
                lemma_align_fails_on(phones, pts, (i + 1) as nat, n as nat);
            }
        }
        let ghost before = result@;
        let phone = phone_with_punct[i].clone();
        if tone_index >= phone_tone_list.len() {
            result.push((phone, 0));
        } else if phone == phone_tone_list[tone_index].0 {
            result.push((phone, phone_tone_list[tone_index].1));
            tone_index = tone_index + 1;
        } else if punctuation(phone.as_str()) {
            result.push((phone, 0));
        } else {
            proof {
                assert(phone@ == phones[i as int]);
            }
            return Err(Sbv2CoreError::MismatchedPhoneme(phone));
        }
        proof {
            assert(pts_view(result@) =~= pts_view(before).push(pt_view(result@[i as int])));
        }
        i = i + 1;
    }
    Ok(result)
}

pub proof fn lemma_align_shape(phones: Seq<Seq<char>>, pts: Seq<(Seq<char>, i32)>, n: nat)
    requires
        n <= phones.len(),
        align_walk(phones, pts, n) is Some,
    ensures
        (align_walk(phones, pts, n)->0).0.len() == n,
        (align_walk(phones, pts, n)->0).1 <= n,
        forall|k: int| 0 <= k < n ==> #[trigger] (align_walk(phones, pts, n)->0).0[k].0 == phones[k],
    decreases n,
{
    if n > 0 {
        lemma_align_shape(phones, pts, (n - 1) as nat);
    }
}

proof fn lemma_realign_prefix(phones: Seq<Seq<char>>, out: Seq<(Seq<char>, i32)>, n: nat)
    requires
        n <= phones.len(),
        out.len() == phones.len(),
        forall|k: int| 0 <= k < out.len() ==> #[trigger] out[k].0 == phones[k],
    ensures
        align_walk(phones, out, n) == Some((out.subrange(0, n as int), n)),
    decreases n,
{
    if n > 0 {
        lemma_realign_prefix(phones, out, (n - 1) as nat);
        assert(out.subrange(0, (n - 1) as int).push((phones[n - 1], out[n - 1].1)) =~= out.subrange(
            0,
            n as int,
        ));
    } else {
        assert(out.subrange(0, 0) =~= seq![]);
    }
}

/// Aligning the punctuated sequence against an alignment's own output gives that output back:
/// the same phonemes with the same tones.
pub proof fn lemma_align_idempotent(phones: Seq<Seq<char>>, pts: Seq<(Seq<char>, i32)>)
    requires
        aligned(phones, pts) is Some,
    ensures
        aligned(phones, aligned(phones, pts)->0) == aligned(phones, pts),
{
    let out = aligned(phones, pts)->0;
    lemma_align_shape(phones, pts, phones.len());
    lemma_realign_prefix(phones, out, phones.len());
    assert(out.subrange(0, phones.len() as int) =~= out);
}

/// The greedy even split of `n_phone` phonemes over `n_word` characters: every slot gets
/// the quotient, and the leftmost `n_phone % n_word` slots one more.
pub open spec fn even_share(n_phone: int, n_word: int, k: int) -> int {
    n_phone / n_word + if k < n_phone % n_word { 1int } else { 0int }
}

pub open spec fn sum_i32(s: Seq<i32>) -> int
    decreases s.len(),
{
    if s.len() == 0 {
        0
    } else {
        sum_i32(s.drop_last()) + s.last() as int
    }
}

/// Spreads a word's phonemes over its characters as evenly as possible, leftmost first.
pub fn distribute_phone(n_phone: i32, n_word: i32) -> (r: Vec<i32>)
    requires
        0 <= n_phone,
        0 <= n_word,
        n_phone > 0 ==> n_word > 0,
    ensures
        r@.len() == n_word,
        forall|k: int| 0 <= k < n_word ==> r@[k] == even_share(n_phone as int, n_word as int, k),
{
    let mut out: Vec<i32> = Vec::new();
    if n_word == 0 {
        return out;
    }
    let q = n_phone / n_word;
    let rem = n_phone % n_word;
    assert(q + rem <= n_phone) by (nonlinear_arith)
        requires
            q == n_phone / n_word,
            rem == n_phone % n_word,
            n_word >= 1,
            n_phone >= 0,
    ;
    let mut k: i32 = 0;
    while k < n_word
        invariant
            0 < n_word,
            0 <= k <= n_word,
            q == n_phone / n_word,
            rem == n_phone % n_word,
            0 <= q <= n_phone,
            0 <= rem,
            q + rem <= n_phone,
            out@.len() == k,
            forall|j: int| 0 <= j < k ==> out@[j] == even_share(n_phone as int, n_word as int, j),
        decreases n_word - k,
    {
        let share: i32 = if k < rem { q + 1 } else { q };
        out.push(share);
        k = k + 1;
    }
    out
}

proof fn lemma_share_prefix_sum(s: Seq<i32>, n_phone: int, n_word: int, m: int)
    requires
        0 <= n_phone,
        0 < n_word,
        0 <= m <= s.len() == n_word,
        forall|k: int| 0 <= k < n_word ==> s[k] == even_share(n_phone, n_word, k),
    ensures
        sum_i32(s.subrange(0, m)) == (n_phone / n_word) * m + if m < n_phone % n_word {
            m
        } else {
            n_phone % n_word
        },
    decreases m,
{
    if m > 0 {
        lemma_share_prefix_sum(s, n_phone, n_word, m - 1);
        assert(s.subrange(0, m).drop_last() =~= s.subrange(0, m - 1));
        assert((n_phone / n_word) * m == (n_phone / n_word) * (m - 1) + n_phone / n_word)
            by (nonlinear_arith);
    } else {
        assert(s.subrange(0, 0) =~= seq![]);
    }
}

/// The split of `distribute_phone` has one entry per character, adds up to the phoneme
/// count, and no two entries differ by more than one.
pub proof fn lemma_distribute_balanced(n_phone: i32, n_word: i32, s: Seq<i32>)
    requires
        0 <= n_phone,
        0 < n_word,
        s.len() == n_word,
        forall|k: int| 0 <= k < n_word ==> s[k] == even_share(n_phone as int, n_word as int, k),
    ensures
        sum_i32(s) == n_phone,
        forall|a: int, b: int| 0 <= a < s.len() && 0 <= b < s.len() ==> s[a] - s[b] <= 1,
{
    lemma_share_prefix_sum(s, n_phone as int, n_word as int, n_word as int);
    assert(s.subrange(0, n_word as int) =~= s);
    let q = n_phone / n_word;
    let rem = n_phone % n_word;
    assert(n_phone == q * n_word + rem) by (nonlinear_arith)
        requires
            q == n_phone / n_word,
            rem == n_phone % n_word,
            n_word > 0,
    ;
    assert(rem <= n_word);
}

} // verus!
