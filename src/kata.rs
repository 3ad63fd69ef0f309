use vstd::prelude::*;

use crate::align::{is_punctuation_char, punctuation_char, strings_view};
use crate::errors::Sbv2CoreError;
use crate::mora::{is_vowel, moras_view, Mora};
use crate::text::{chars_equal, chars_of, string_of};

verus! {

/// Mora `m` occurs in `s` at position `i`.
pub open spec fn matches_at(m: Seq<char>, s: Seq<char>, i: int) -> bool {
    0 < m.len() && 0 <= i && i + m.len() <= s.len() && s.subrange(i, i + m.len() as int) == m
}

/// Among the first `k` table entries, the longest that occurs at `i`; of equally long ones
/// the later entry.
pub open spec fn best_mora(
    table: Seq<(Seq<char>, Option<Seq<char>>, Seq<char>)>,
    s: Seq<char>,
    i: int,
    k: nat,
) -> Option<int>
    decreases k,
{
    if k == 0 {
        None
    } else {
        let prev = best_mora(table, s, i, (k - 1) as nat);
        let e = table[k - 1];
        if matches_at(e.0, s, i) && (prev is None || table[prev->0].0.len() <= e.0.len()) {
            Some(k - 1)
        } else {
            prev
        }
    }
}

/// How a mora is written out: a space, the consonant and a space if there is one, the vowel.
pub open spec fn mora_spelling(e: (Seq<char>, Option<Seq<char>>, Seq<char>)) -> Seq<char> {
    match e.1 {
        Some(c) => seq![' '] + c + seq![' '] + e.2,
        None => seq![' '] + e.2,
    }
}

/// The text from position `i` on, with every mora written out, longest match first;
/// characters that start no mora are kept.
pub open spec fn spelled(
    table: Seq<(Seq<char>, Option<Seq<char>>, Seq<char>)>,
    s: Seq<char>,
    i: int,
) -> Seq<char>
    decreases s.len() - i,
{
    if i < 0 || i >= s.len() {
        seq![]
    } else {
        match best_mora(table, s, i, table.len()) {
            Some(j) => if 0 <= j < table.len() && 0 < table[j].0.len() && i + table[j].0.len()
                <= s.len() {
                mora_spelling(table[j]) + spelled(table, s, i + table[j].0.len())
            } else {
                seq![]
            },
            None => seq![s[i]] + spelled(table, s, i + 1),
        }
    }
}

proof fn lemma_best_mora_matches(
    table: Seq<(Seq<char>, Option<Seq<char>>, Seq<char>)>,
    s: Seq<char>,
    i: int,
    k: nat,
)
    requires
        k <= table.len(),
    ensures
        best_mora(table, s, i, k) is Some ==> (0 <= best_mora(table, s, i, k)->0 < k && matches_at(
            table[best_mora(table, s, i, k)->0].0,
            s,
            i,
        )),
    decreases k,
{
    if k > 0 {
        lemma_best_mora_matches(table, s, i, (k - 1) as nat);
    }
}

fn occurs_at(m: &Vec<char>, s: &Vec<char>, i: usize) -> (r: bool)
    ensures
        r == matches_at(m@, s@, i as int),
{
    if m.len() == 0 || i > s.len() || m.len() > s.len() - i {
        return false;
    }
    let sl = s.len();
    let mut j: usize = 0;
    while j < m.len()
        invariant
            sl == s@.len(),
            i <= s@.len(),
            m@.len() <= s@.len() - i,
            j <= m@.len(),
            forall|t: int| 0 <= t < j ==> m@[t] == s@[i + t],
        decreases m@.len() - j,
    {
        if m[j] != s[i + j] {
            proof {
                if matches_at(m@, s@, i as int) {
                    assert(s@.subrange(i as int, i + m@.len())[j as int] == s@[i + j]);
                }
            }
            return false;
        }
        j = j + 1;
    }
    assert(s@.subrange(i as int, i + m@.len()) =~= m@);
    true
}

fn best_mora_at(table: &Vec<Mora>, s: &Vec<char>, i: usize) -> (r: Option<usize>)
    requires
        i < s@.len(),
    ensures
        r is Some <==> best_mora(moras_view(table@), s@, i as int, table@.len()) is Some,
        r is Some ==> r->0 as int == best_mora(moras_view(table@), s@, i as int, table@.len())->0,
{
    let ghost tv = moras_view(table@);
    let mut best: Option<usize> = None;
    let mut best_len: usize = 0;
    let mut k: usize = 0;
    while k < table.len()
        invariant
            tv == moras_view(table@),
            i < s@.len(),
            k <= table@.len(),
            best is Some <==> best_mora(tv, s@, i as int, k as nat) is Some,
            best is Some ==> best->0 as int == best_mora(tv, s@, i as int, k as nat)->0 && best->0 < k
                && best_len == tv[best->0 as int].0.len(),
        decreases table@.len() - k,
    {
        let m = chars_of(table[k].mora.as_str());
        let ok = occurs_at(&m, s, i);
        proof {
            assert(tv[k as int].0 == m@);
        }
        if ok && (best.is_none() || best_len <= m.len()) {
            best = Some(k);
            best_len = m.len();
        }
        k = k + 1;
    }
    best
}

fn push_all(out: &mut Vec<char>, s: &str)
    ensures
        final(out)@ == old(out)@ + s@,
{
    let cs = chars_of(s);
    let mut i: usize = 0;
    let ghost start = out@;
    while i < cs.len()
        invariant
            cs@ == s@,
            i <= cs@.len(),
            out@ == start + cs@.subrange(0, i as int),
        decreases cs@.len() - i,
    {
        out.push(cs[i]);
        i = i + 1;
        assert(out@ =~= start + cs@.subrange(0, i as int));
    }
    assert(cs@.subrange(0, i as int) =~= cs@);
}

/// Writes out every mora of the text, trying the longest table entry first at each place.
pub fn spell_moras(table: &Vec<Mora>, text: &Vec<char>) -> (r: Vec<char>)
    ensures
        r@ == spelled(moras_view(table@), text@, 0),
{
    let ghost tv = moras_view(table@);
    let mut out: Vec<char> = Vec::new();
    let mut i: usize = 0;
    while i < text.len()
        invariant
            tv == moras_view(table@),
            i <= text@.len(),
            out@ + spelled(tv, text@, i as int) == spelled(tv, text@, 0),
        decreases text@.len() - i,
    {
        let ghost before = out@;
        match best_mora_at(table, text, i) {
            Some(j) => {
                proof {
                    lemma_best_mora_matches(tv, text@, i as int, table@.len());
                    assert(tv[j as int].0.len() > 0);
                }
                let e = &table[j];
                out.push(' ');
                match &e.consonant {
                    Some(c) => {
                        push_all(&mut out, c.as_str());
                        out.push(' ');
                    },
                    None => {},
                }
                push_all(&mut out, e.vowel.as_str());
                let len = chars_of(e.mora.as_str()).len();
                proof {
                    assert(out@ =~= before + mora_spelling(tv[j as int]));
                    assert(len == tv[j as int].0.len());
                }
                i = i + len;
            },
            None => {
                out.push(text[i]);
                proof {
                    assert(out@ =~= before + seq![text@[i as int]]);
                }
                i = i + 1;
            },
        }
    }
    proof {
        assert(out@ + spelled(tv, text@, i as int) =~= out@);
    }
    out
}

/// A character followed by each long-vowel mark turned into a space and that character.
pub open spec fn long_run(c: Seq<char>, n: nat) -> Seq<char>
    decreases n,
{
    if n == 0 {
        c
    } else {
        long_run(c, (n - 1) as nat) + seq![' '] + c
    }
}

/// The text after every word character followed by long-vowel marks was replaced by
/// `long_run` of that character and the number of marks.
pub uninterp spec fn long_vowels_spelled(s: Seq<char>) -> Seq<char>;

/// Spells out one match of a word character and the long-vowel marks after it.
pub fn long_vowel_run(c: &str, marks: &str) -> (r: String)
    ensures
        r@ == long_run(c@, marks@.len()),
{
    let n = chars_of(marks).len();
    let mut out: Vec<char> = chars_of(c);
    let mut k: usize = 0;
    while k < n
        invariant
            k <= n,
            out@ == long_run(c@, k as nat),
        decreases n - k,
    {
        out.push(' ');
        push_all(&mut out, c);
        k = k + 1;
    }
    string_of(out.as_slice())
}

/// Relies on regex's `Regex::replace_all` with the pattern `(\w)(ー*)`: each match is
/// replaced by what `long_vowel_run` makes of its two groups, the rest is copied.
#[verifier::external_body]
fn spell_long_vowels(text: &str) -> (r: String)
    ensures
        r@ == long_vowels_spelled(text@),
{
    let pattern = regex::Regex::new(r"(\w)(ー*)").unwrap();
    pattern.replace_all(text, |m: &regex::Captures| long_vowel_run(&m[1], &m[2])).to_string()
}

/// The maximal runs of characters other than a space, from position `i` on, the first of
/// them continuing `cur`.
pub open spec fn words_from(s: Seq<char>, i: int, cur: Seq<char>) -> Seq<Seq<char>>
    decreases s.len() - i,
{
    if i < 0 || i >= s.len() {
        if cur.len() > 0 {
            seq![cur]
        } else {
            seq![]
        }
    } else if s[i] == ' ' {
        (if cur.len() > 0 {
            seq![cur]
        } else {
            seq![]
        }) + words_from(s, i + 1, seq![])
    } else {
        words_from(s, i + 1, cur.push(s[i]))
    }
}

/// The space-separated words of a text.
pub open spec fn words(s: Seq<char>) -> Seq<Seq<char>> {
    words_from(s, 0, seq![])
}

/// Splits a spelled-out text into its phonemes.
pub fn split_phonemes(s: &str) -> (r: Vec<String>)
    ensures
        strings_view(r@) == words(s@),
{
    let cs = chars_of(s);
    let mut out: Vec<String> = Vec::new();
    let mut cur: Vec<char> = Vec::new();
    let mut i: usize = 0;
    while i < cs.len()
        invariant
            cs@ == s@,
            i <= cs@.len(),
            strings_view(out@) + words_from(cs@, i as int, cur@) == words(s@),
        decreases cs@.len() - i,
    {
        let ghost before = strings_view(out@);
        let ghost cur0 = cur@;
        if cs[i] == ' ' {
            if cur.len() > 0 {
                out.push(string_of(cur.as_slice()));
                proof {
                    assert(strings_view(out@) =~= before + seq![cur0]);
                }
            } else {
                proof {
                    assert(strings_view(out@) =~= before + seq![]);
                }
            }
            cur = Vec::new();
            proof {
                assert(cur@ =~= seq![]);
            }
        } else {
            cur.push(cs[i]);
        }
        i = i + 1;
    }
    if cur.len() > 0 {
        let ghost before = strings_view(out@);
        let ghost cur0 = cur@;
        out.push(string_of(cur.as_slice()));
        proof {
            assert(strings_view(out@) =~= before + seq![cur0]);
        }
    } else {
        proof {
            assert(strings_view(out@) =~= strings_view(out@) + seq![]);
        }
    }
    out
}

/// Every character of the text is punctuation (an empty text included).
pub open spec fn all_punctuation(s: Seq<char>) -> bool {
    forall|i: int| 0 <= i < s.len() ==> is_punctuation_char(s[i])
}

/// A character of the katakana block.
pub open spec fn is_katakana(c: char) -> bool {
    0x30A0 <= c as u32 <= 0x30FF
}

pub open spec fn has_katakana(s: Seq<char>) -> bool {
    exists|i: int| 0 <= i < s.len() && is_katakana(s[i])
}

/// The phonemes of a reading: a punctuation-only reading split into its characters, any
/// other reading with its moras and long vowels written out and split on spaces.
pub open spec fn kata_phonemes(
    table: Seq<(Seq<char>, Option<Seq<char>>, Seq<char>)>,
    s: Seq<char>,
) -> Option<Seq<Seq<char>>> {
    if all_punctuation(s) {
        Some(s.map_values(|c: char| seq![c]))
    } else if has_katakana(s) {
        Some(words(long_vowels_spelled(spelled(table, s, 0))))
    } else {
        None
    }
}

/// Decomposes a katakana reading into its phonemes.
pub fn kata_to_phoneme_list(table: &Vec<Mora>, text: String) -> (r: Result<Vec<String>, Sbv2CoreError>)
    ensures
        r is Ok <==> kata_phonemes(moras_view(table@), text@) is Some,
        r is Ok ==> strings_view(r->Ok_0@) == kata_phonemes(moras_view(table@), text@)->0,
        r is Err ==> r->Err_0 is NotKatakana,
{
    let cs = chars_of(text.as_str());
    let mut all_punct = true;
    let mut kata = false;
    let mut i: usize = 0;
    while i < cs.len()
        invariant
            cs@ == text@,
            i <= cs@.len(),
            all_punct == (forall|k: int| 0 <= k < i ==> is_punctuation_char(cs@[k])),
            kata == (exists|k: int| 0 <= k < i && is_katakana(cs@[k])),
        decreases cs@.len() - i,
    {
        if !punctuation_char(cs[i]) {
            all_punct = false;
        }
        let code = cs[i] as u32;
        if 0x30A0 <= code && code <= 0x30FF {
            kata = true;
        }
        i = i + 1;
    }
    if all_punct {
        let mut out: Vec<String> = Vec::new();
        let mut j: usize = 0;
        while j < cs.len()
            invariant
                cs@ == text@,
                j <= cs@.len(),
                out@.len() == j,
                forall|k: int| 0 <= k < j ==> (#[trigger] out@[k])@ == seq![cs@[k]],
            decreases cs@.len() - j,
        {
            let one = string_of(&[cs[j]]);
            proof {
                assert([cs@[j as int]]@ =~= seq![cs@[j as int]]);
            }
            out.push(one);
            j = j + 1;
        }
        assert(strings_view(out@) =~= cs@.map_values(|c: char| seq![c]));
        return Ok(out);
    }
    if !kata {
        return Err(Sbv2CoreError::NotKatakana(text));
    }
    let spelled_moras = spell_moras(table, &cs);
    let spelled_text = string_of(spelled_moras.as_slice());
    let long = spell_long_vowels(spelled_text.as_str());
    Ok(split_phonemes(long.as_str()))
}

/// The long-vowel mark as a phoneme of its own.
pub open spec fn long_mark() -> Seq<char> {
    seq!['ー']
}

/// The first `n` phonemes of a segment with each mark after the first phoneme replaced by
/// the last character of the phoneme before it, from left to right.
pub open spec fn resolve_marks(seg: Seq<Seq<char>>, n: nat) -> Seq<Seq<char>>
    decreases n,
{
    if n == 0 {
        seg
    } else {
        let r = resolve_marks(seg, (n - 1) as nat);
        let e = n - 1;
        if 1 <= e < r.len() && r[e] == long_mark() && r[e - 1].len() > 0 {
            r.update(e, seq![r[e - 1].last()])
        } else {
            r
        }
    }
}

/// A segment that opens with a mark takes the previous segment's last phoneme when that is a
/// vowel; otherwise the mark stays.
pub open spec fn resolve_first(seg: Seq<Seq<char>>, prev: Option<Seq<char>>) -> Seq<Seq<char>> {
    if seg.len() > 0 && seg[0] == long_mark() {
        match prev {
            Some(p) => if is_vowel(p) {
                seg.update(0, p)
            } else {
                seg
            },
            None => seg,
        }
    } else {
        seg
    }
}

pub open spec fn fix_segment(seg: Seq<Seq<char>>, prev: Option<Seq<char>>) -> Seq<Seq<char>> {
    resolve_marks(resolve_first(seg, prev), seg.len())
}

/// The last phoneme of the last segment handled so far, if there is one.
pub open spec fn last_phoneme(done: Seq<Seq<Seq<char>>>) -> Option<Seq<char>> {
    if done.len() > 0 && done.last().len() > 0 {
        Some(done.last().last())
    } else {
        None
    }
}

/// The first `n` segments with their long-vowel marks resolved, each against the segments
/// already resolved before it.
pub open spec fn handled(segs: Seq<Seq<Seq<char>>>, n: nat) -> Seq<Seq<Seq<char>>>
    decreases n,
{
    if n == 0 {
        seq![]
    } else {
        let d = handled(segs, (n - 1) as nat);
        d.push(fix_segment(segs[n - 1], last_phoneme(d)))
    }
}

pub open spec fn segs_view(v: Seq<Vec<String>>) -> Seq<Seq<Seq<char>>> {
    v.map_values(|s: Vec<String>| strings_view(s@))
}

proof fn lemma_resolve_len(seg: Seq<Seq<char>>, n: nat)
    ensures
        resolve_marks(seg, n).len() == seg.len(),
        forall|k: int| n <= k < seg.len() ==> resolve_marks(seg, n)[k] == seg[k],
    decreases n,
{
    if n > 0 {
        lemma_resolve_len(seg, (n - 1) as nat);
    }
}

pub proof fn lemma_handled_len(segs: Seq<Seq<Seq<char>>>, n: nat)
    ensures
        handled(segs, n).len() == n,
    decreases n,
{
    if n > 0 {
        lemma_handled_len(segs, (n - 1) as nat);
    }
}

fn is_long_mark(p: &String) -> (r: bool)
    ensures
        r == (p@ == long_mark()),
{
    let cs = chars_of(p.as_str());
    let r = chars_equal(&cs, &['ー']);
    proof {
        assert(['ー']@ =~= long_mark());
    }
    r
}

fn fix_one_segment(seg: &Vec<String>, prev: &Option<String>) -> (r: Vec<String>)
    ensures
        strings_view(r@) == fix_segment(
            strings_view(seg@),
            match prev {
                Some(p) => Some(p@),
                None => None,
            },
        ),
{
    let ghost pv = match prev {
        Some(p) => Some(p@),
        None => None,
    };
    let mut out: Vec<String> = Vec::new();
    let mut k: usize = 0;
    while k < seg.len()
        invariant
            k <= seg@.len(),
            out@.len() == k,
            forall|t: int| 0 <= t < k ==> (#[trigger] out@[t])@ == seg@[t]@,
        decreases seg@.len() - k,
    {
        out.push(seg[k].clone());
        k = k + 1;
    }
    proof {
        assert(strings_view(out@) =~= strings_view(seg@));
    }
    if out.len() > 0 && is_long_mark(&out[0]) {
        match prev {
            Some(p) => {
                let pc = chars_of(p.as_str());
                let vowel = pc.len() == 1 && (pc[0] == 'a' || pc[0] == 'i' || pc[0] == 'u' || pc[0]
                    == 'e' || pc[0] == 'o' || pc[0] == 'N');
                if vowel {
                    let ghost before = strings_view(out@);
                    out.set(0, p.clone());
                    proof {
                        assert(strings_view(out@) =~= before.update(0, p@));
                    }
                }
            },
            None => {},
        }
    }
    let ghost first = strings_view(out@);
    assert(first == resolve_first(strings_view(seg@), pv));
    let n = out.len();
    let mut e: usize = 0;
    while e < n
        invariant
            n == out@.len(),
            first.len() == n,
            e <= n,
            strings_view(out@) == resolve_marks(first, e as nat),
        decreases n - e,
    {
        proof {
            lemma_resolve_len(first, e as nat);
        }
        if e >= 1 && is_long_mark(&out[e]) {
            let pc = chars_of(out[e - 1].as_str());
            if pc.len() > 0 {
                let last = string_of(&[pc[pc.len() - 1]]);
                let ghost before = strings_view(out@);
                out.set(e, last);
                proof {
                    assert([pc@[pc@.len() - 1]]@ =~= seq![pc@.last()]);
                    assert(strings_view(out@) =~= before.update(e as int, seq![before[e - 1].last()]));
                }
            }
        }
        e = e + 1;
    }
    out
}

/// Resolves long-vowel marks segment by segment: a mark that opens a segment takes the
/// previous segment's final vowel, and marks inside a segment repeat the character before.
pub fn handle_long(sep_phonemes: Vec<Vec<String>>) -> (r: Vec<Vec<String>>)
    ensures
        segs_view(r@) == handled(segs_view(sep_phonemes@), sep_phonemes@.len()),
{
    let ghost sv = segs_view(sep_phonemes@);
    let mut out: Vec<Vec<String>> = Vec::new();
    let mut i: usize = 0;
    while i < sep_phonemes.len()
        invariant
            sv == segs_view(sep_phonemes@),
            i <= sep_phonemes@.len(),
            segs_view(out@) == handled(sv, i as nat),
        decreases sep_phonemes@.len() - i,
    {
        proof {
            lemma_handled_len(sv, i as nat);
        }
        let prev: Option<String> = if i > 0 && out[i - 1].len() > 0 {
            let l = out[i - 1].len();
            Some(out[i - 1][l - 1].clone())
        } else {
            None
        };
        let fixed = fix_one_segment(&sep_phonemes[i], &prev);
        let ghost before = segs_view(out@);
        out.push(fixed);
        proof {
            assert(sv[i as int] == strings_view(sep_phonemes@[i as int]@));
            assert(segs_view(out@) =~= before.push(strings_view(fixed@)));
        }
        i = i + 1;
    }
    out
}

} // verus!
