use vstd::prelude::*;

use crate::errors::Sbv2CoreError;

verus! {

/// A phoneme with its tone, seen as characters and a tone value.
pub open spec fn pt_view(p: (String, i32)) -> (Seq<char>, i32) {
    (p.0@, p.1)
}

/// A list of phoneme/tone pairs, seen through `pt_view`.
pub open spec fn pts_view(v: Seq<(String, i32)>) -> Seq<(Seq<char>, i32)> {
    v.map_values(|p: (String, i32)| pt_view(p))
}

/// The distinct tone values of a phrase.
pub open spec fn tone_set(s: Seq<(Seq<char>, i32)>) -> Set<i32> {
    Set::new(|t: i32| exists|i: int| 0 <= i < s.len() && s[i].1 == t)
}

/// A phrase is accepted when its distinct tones are {0}, {0, 1} or {-1, 0}.
pub open spec fn tones_acceptable(s: Seq<(Seq<char>, i32)>) -> bool {
    tone_set(s) == set![0i32] || tone_set(s) == set![0i32, 1i32] || tone_set(s) == set![-1i32, 0i32]
}

/// The tone of a {-1, 0} phrase after it is moved to {0, 1}.
pub open spec fn lifted_tone(t: i32) -> i32 {
    if t == -1 { 0 } else { 1 }
}

/// The phrase with canonical tones: {-1, 0} phrases are lifted, the others kept.
pub open spec fn canonical_phrase(s: Seq<(Seq<char>, i32)>) -> Seq<(Seq<char>, i32)> {
    if tone_set(s) == set![-1i32, 0i32] {
        s.map_values(|p: (Seq<char>, i32)| (p.0, lifted_tone(p.1)))
    } else {
        s
    }
}

proof fn lemma_tone_set_shapes(s: Seq<(Seq<char>, i32)>, neg: bool, zero: bool, one: bool, other: bool)
    requires
        neg == (exists|i: int| 0 <= i < s.len() && s[i].1 == -1),
        zero == (exists|i: int| 0 <= i < s.len() && s[i].1 == 0),
        one == (exists|i: int| 0 <= i < s.len() && s[i].1 == 1),
        other == (exists|i: int| 0 <= i < s.len() && s[i].1 != -1 && s[i].1 != 0 && s[i].1 != 1),
    ensures
        (tone_set(s) == set![0i32]) == (zero && !neg && !one && !other),
        (tone_set(s) == set![0i32, 1i32]) == (zero && one && !neg && !other),
        (tone_set(s) == set![-1i32, 0i32]) == (zero && neg && !one && !other),
{
    let ts = tone_set(s);
    if zero && !neg && !one && !other {
        assert forall|t: i32| ts.contains(t) <==> set![0i32].contains(t) by {
            if ts.contains(t) {
                let i = choose|i: int| 0 <= i < s.len() && s[i].1 == t;
                assert(s[i].1 == 0);
            }
        }
        assert(ts =~= set![0i32]);
    }
    if zero && one && !neg && !other {
        assert forall|t: i32| ts.contains(t) <==> set![0i32, 1i32].contains(t) by {
            if ts.contains(t) {
                let i = choose|i: int| 0 <= i < s.len() && s[i].1 == t;
                assert(s[i].1 == 0 || s[i].1 == 1);
            }
        }
        assert(ts =~= set![0i32, 1i32]);
    }
    if zero && neg && !one && !other {
        assert forall|t: i32| ts.contains(t) <==> set![-1i32, 0i32].contains(t) by {
            if ts.contains(t) {
                let i = choose|i: int| 0 <= i < s.len() && s[i].1 == t;
                assert(s[i].1 == 0 || s[i].1 == -1);
            }
        }
        assert(ts =~= set![-1i32, 0i32]);
    }
    if neg {
        assert(ts.contains(-1i32));
    }
    if zero {
        assert(ts.contains(0i32));
    }
    if one {
        assert(ts.contains(1i32));
    }
    if other {
        let i = choose|i: int| 0 <= i < s.len() && s[i].1 != -1 && s[i].1 != 0 && s[i].1 != 1;
        assert(ts.contains(s[i].1));
        assert(!set![0i32, 1i32].contains(s[i].1));
        assert(!set![-1i32, 0i32].contains(s[i].1));
        assert(!set![0i32].contains(s[i].1));
    }
    assert(!set![0i32].contains(1i32) && !set![0i32].contains(-1i32));
    assert(!set![0i32, 1i32].contains(-1i32) && set![0i32, 1i32].contains(1i32));
    assert(!set![-1i32, 0i32].contains(1i32) && set![-1i32, 0i32].contains(-1i32));
    assert(set![0i32].contains(0i32));
}

/// Validates one phrase's tones and brings them to the canonical {0, 1} encoding.
pub fn fix_phone_tone(phone_tone_list: Vec<(String, i32)>) -> (r: Result<Vec<(String, i32)>, Sbv2CoreError>)
    ensures
        r is Ok <==> tones_acceptable(pts_view(phone_tone_list@)),
        r is Ok ==> pts_view(r->Ok_0@) == canonical_phrase(pts_view(phone_tone_list@)),
        r is Err ==> r->Err_0 is InvalidToneValues,
{
    let mut neg = false;
    let mut zero = false;
    let mut one = false;
    let mut other = false;
    let mut i: usize = 0;
    while i < phone_tone_list.len()
        invariant
            i <= phone_tone_list@.len(),
            neg == (exists|k: int| 0 <= k < i && phone_tone_list@[k].1 == -1),
            zero == (exists|k: int| 0 <= k < i && phone_tone_list@[k].1 == 0),
            one == (exists|k: int| 0 <= k < i && phone_tone_list@[k].1 == 1),
            other == (exists|k: int|
                0 <= k < i && phone_tone_list@[k].1 != -1 && phone_tone_list@[k].1 != 0
                    && phone_tone_list@[k].1 != 1),
        decreases phone_tone_list@.len() - i,
    {
        let t = phone_tone_list[i].1;
        if t == -1 {
            neg = true;
        } else if t == 0 {
            zero = true;
        } else if t == 1 {
            one = true;
        } else {
            other = true;
        }
        i = i + 1;
    }
    let ghost pv = pts_view(phone_tone_list@);
    proof {
        assert forall|k: int| 0 <= k < pv.len() implies pv[k].1 == phone_tone_list@[k].1 by {}
        if neg {
            let k = choose|k: int| 0 <= k < i && phone_tone_list@[k].1 == -1;
            assert(pv[k].1 == -1);
        }
        if zero {
            let k = choose|k: int| 0 <= k < i && phone_tone_list@[k].1 == 0;
            assert(pv[k].1 == 0);
        }
        if one {
            let k = choose|k: int| 0 <= k < i && phone_tone_list@[k].1 == 1;
            assert(pv[k].1 == 1);
        }
        if other {
            let k = choose|k: int|
                0 <= k < i && phone_tone_list@[k].1 != -1 && phone_tone_list@[k].1 != 0
                    && phone_tone_list@[k].1 != 1;
            assert(pv[k].1 == phone_tone_list@[k].1);
        }
        lemma_tone_set_shapes(pv, neg, zero, one, other);
    }
    if zero && !neg && !one && !other {
        Ok(phone_tone_list)
    } else if zero && one && !neg && !other {
        Ok(phone_tone_list)
    } else if zero && neg && !one && !other {
        let mut fixed: Vec<(String, i32)> = Vec::new();
        let mut j: usize = 0;
        while j < phone_tone_list.len()
            invariant
                j <= phone_tone_list@.len(),
                fixed@.len() == j,
                forall|k: int|
                    0 <= k < j ==> fixed@[k] == (
                    phone_tone_list@[k].0,
                    lifted_tone(phone_tone_list@[k].1),
                ),
            decreases phone_tone_list@.len() - j,
        {
            let p = phone_tone_list[j].0.clone();
            let t: i32 = if phone_tone_list[j].1 == -1 { 0 } else { 1 };
            fixed.push((p, t));
            j = j + 1;
        }
        proof {
            assert(pts_view(fixed@) =~= canonical_phrase(pv));
        }
        Ok(fixed)
    } else {
        Err(Sbv2CoreError::InvalidToneValues(phone_tone_list))
    }
}

/// A {-1, 0} phrase is rewritten to a {0, 1} phrase of the same length and phonemes,
/// -1 becoming 0 and 0 becoming 1.
pub proof fn lemma_lifted_phrase(s: Seq<(Seq<char>, i32)>)
    requires
        tone_set(s) == set![-1i32, 0i32],
    ensures
        canonical_phrase(s).len() == s.len(),
        tone_set(canonical_phrase(s)) == set![0i32, 1i32],
        forall|i: int|
            0 <= i < s.len() ==> (#[trigger] canonical_phrase(s)[i]).0 == s[i].0 && (s[i].1 == -1
                ==> canonical_phrase(s)[i].1 == 0) && (s[i].1 == 0 ==> canonical_phrase(s)[i].1 == 1),
{
    let c = canonical_phrase(s);
    assert forall|i: int| 0 <= i < s.len() implies s[i].1 == -1 || s[i].1 == 0 by {
        assert(tone_set(s).contains(s[i].1));
    }
    assert(tone_set(s).contains(-1i32));
    assert(tone_set(s).contains(0i32));
    let i0 = choose|i: int| 0 <= i < s.len() && s[i].1 == -1;
    let i1 = choose|i: int| 0 <= i < s.len() && s[i].1 == 0;
    assert(c[i0].1 == 0);
    assert(c[i1].1 == 1);
    assert forall|t: i32| tone_set(c).contains(t) <==> set![0i32, 1i32].contains(t) by {
        if tone_set(c).contains(t) {
            let i = choose|i: int| 0 <= i < c.len() && c[i].1 == t;
            assert(c[i].1 == lifted_tone(s[i].1));
        }
        if t == 0 {
            assert(c[i0].1 == t);
        }
        if t == 1 {
            assert(c[i1].1 == t);
        }
    }
    assert(tone_set(c) =~= set![0i32, 1i32]);
}

} // verus!
