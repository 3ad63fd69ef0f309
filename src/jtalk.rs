use vstd::prelude::*;

use crate::align::{align_tones, aligned, is_punctuation, punctuation, strings_view};
use crate::errors::Sbv2CoreError;
use crate::kata::{all_punctuation, handle_long, handled, kata_phonemes, kata_to_phoneme_list, segs_view};
use crate::mora::{moras_view, Mora};
use crate::prosody::{g2p_prosody, g2phone_tone_wo_punct, marks_view, phone_tones_of, prosody_prefix, AnalyzedLabel};
use crate::text::{chars_of, string_of};
use crate::tone::pts_view;

verus! {

/// The analyzer's output for one utterance: one feature record per morpheme and the label
/// stream.
pub struct JTalkProcess {
    pub parsed: Vec<String>,
    pub labels: Vec<AnalyzedLabel>,
}

/// The comma-separated fields from position `i` on, the first of them continuing `cur`.
pub open spec fn fields_from(s: Seq<char>, i: int, cur: Seq<char>) -> Seq<Seq<char>>
    decreases s.len() - i,
{
    if i < 0 || i >= s.len() {
        seq![cur]
    } else if s[i] == ',' {
        seq![cur] + fields_from(s, i + 1, seq![])
    } else {
        fields_from(s, i + 1, cur.push(s[i]))
    }
}

pub open spec fn fields(s: Seq<char>) -> Seq<Seq<char>> {
    fields_from(s, 0, seq![])
}

/// The reading without its accent apostrophes.
pub open spec fn drop_quotes(s: Seq<char>) -> Seq<char>
    decreases s.len(),
{
    if s.len() == 0 {
        seq![]
    } else {
        drop_quotes(s.drop_last()) + if s.last() == '’' {
            seq![]
        } else {
            seq![s.last()]
        }
    }
}

/// Full-width and Japanese punctuation brought to the marks the phoneme set knows.
pub open spec fn punct_replacement(c: char) -> char {
    if c == '、' || c == '，' || c == '・' || c == '：' || c == '；' {
        ','
    } else if c == '。' || c == '．' {
        '.'
    } else if c == '！' {
        '!'
    } else if c == '？' {
        '?'
    } else if c == '～' || c == '—' || c == '−' {
        '-'
    } else if c == '「' || c == '」' {
        '\''
    } else {
        c
    }
}

pub fn replace_punctuation_char(c: char) -> (r: char)
    ensures
        r == punct_replacement(c),
{
    if c == '、' || c == '，' || c == '・' || c == '：' || c == '；' {
        ','
    } else if c == '。' || c == '．' {
        '.'
    } else if c == '！' {
        '!'
    } else if c == '？' {
        '?'
    } else if c == '～' || c == '—' || c == '−' {
        '-'
    } else if c == '「' || c == '」' {
        '\''
    } else {
        c
    }
}

/// How many bytes a character takes in UTF-8.
pub open spec fn utf8_width(c: char) -> nat {
    if (c as u32) < 0x80 {
        1
    } else if (c as u32) < 0x800 {
        2
    } else if (c as u32) < 0x10000 {
        3
    } else {
        4
    }
}

/// The length of a text in UTF-8 bytes.
pub open spec fn utf8_len(s: Seq<char>) -> nat
    decreases s.len(),
{
    if s.len() == 0 {
        0
    } else {
        utf8_len(s.drop_last()) + utf8_width(s.last())
    }
}

/// The word unit of one feature record: its surface with punctuation normalized, and its
/// reading; a comma reading is replaced by the surface (or, if the surface is not
/// punctuation, by one apostrophe per UTF-8 byte of it), a question-mark reading must come from a question mark.
pub open spec fn word_unit(feature: Seq<char>) -> Option<(Seq<char>, Seq<char>)> {
    let f = fields(feature);
    if f.len() < 10 {
        None
    } else {
        let word = f[0].map_values(|c: char| punct_replacement(c));
        let yomi = drop_quotes(f[9]);
        if yomi.len() == 0 {
            None
        } else if yomi == seq!['、'] {
            if all_punctuation(word) {
                Some((word, word))
            } else {
                Some((word, Seq::new(utf8_len(word), |k: int| '\'')))
            }
        } else if yomi == seq!['？'] {
            if word == seq!['?'] {
                Some((word, seq!['?']))
            } else {
                None
            }
        } else {
            Some((word, yomi))
        }
    }
}

/// All word units of the records, or `None` if one of them is malformed.
pub open spec fn word_units(parsed: Seq<Seq<char>>) -> Option<Seq<(Seq<char>, Seq<char>)>>
    decreases parsed.len(),
{
    if parsed.len() == 0 {
        Some(seq![])
    } else {
        match (word_units(parsed.drop_last()), word_unit(parsed.last())) {
            (Some(prev), Some(u)) => Some(prev.push(u)),
            _ => None,
        }
    }
}

proof fn lemma_word_units_fail(parsed: Seq<Seq<char>>, k: nat)
    requires
        k <= parsed.len(),
        word_units(parsed.subrange(0, k as int)) is None,
    ensures
        word_units(parsed) is None,
    decreases parsed.len() - k,
{
    if k < parsed.len() {
        assert(parsed.subrange(0, (k + 1) as int).drop_last() =~= parsed.subrange(0, k as int));
        lemma_word_units_fail(parsed, (k + 1) as nat);
    } else {
        assert(parsed.subrange(0, k as int) =~= parsed);
    }
}

fn split_fields(s: &Vec<char>) -> (r: Vec<Vec<char>>)
    ensures
        r@.map_values(|v: Vec<char>| v@) == fields(s@),
{
    let mut out: Vec<Vec<char>> = Vec::new();
    let mut cur: Vec<char> = Vec::new();
    let mut i: usize = 0;
    while i < s.len()
        invariant
            i <= s@.len(),
            out@.map_values(|v: Vec<char>| v@) + fields_from(s@, i as int, cur@) == fields(s@),
        decreases s@.len() - i,
    {
        let ghost before = out@.map_values(|v: Vec<char>| v@);
        if s[i] == ',' {
            let ghost c0 = cur@;
            out.push(cur);
            cur = Vec::new();
            proof {
                assert(out@.map_values(|v: Vec<char>| v@) =~= before + seq![c0]);
                assert(cur@ =~= seq![]);
            }
        } else {
            cur.push(s[i]);
        }
        i = i + 1;
    }
    let ghost before = out@.map_values(|v: Vec<char>| v@);
    let ghost c0 = cur@;
    out.push(cur);
    proof {
        assert(out@.map_values(|v: Vec<char>| v@) =~= before + seq![c0]);
    }
    out
}

fn without_quotes(s: &Vec<char>) -> (r: Vec<char>)
    ensures
        r@ == drop_quotes(s@),
{
    let mut out: Vec<char> = Vec::new();
    let mut i: usize = 0;
    while i < s.len()
        invariant
            i <= s@.len(),
            out@ == drop_quotes(s@.subrange(0, i as int)),
        decreases s@.len() - i,
    {
        proof {
            assert(s@.subrange(0, i + 1).drop_last() =~= s@.subrange(0, i as int));
        }
        if s[i] != '’' {
            out.push(s[i]);
        }
        i = i + 1;
        proof {
            assert(out@ =~= drop_quotes(s@.subrange(0, i as int)));
        }
    }
    assert(s@.subrange(0, i as int) =~= s@);
    out
}

fn all_punct_chars(s: &Vec<char>) -> (r: bool)
    ensures
        r == all_punctuation(s@),
{
    let mut i: usize = 0;
    while i < s.len()
        invariant
            i <= s@.len(),
            forall|k: int| 0 <= k < i ==> crate::align::is_punctuation_char(s@[k]),
        decreases s@.len() - i,
    {
        if !crate::align::punctuation_char(s[i]) {
            return false;
        }
        i = i + 1;
    }
    true
}

fn read_word_unit(feature: &String) -> (r: Option<(Vec<char>, Vec<char>)>)
    ensures
        r is Some <==> word_unit(feature@) is Some,
        r is Some ==> ((r->0).0@, (r->0).1@) == word_unit(feature@)->0,
{
    let cs = chars_of(feature.as_str());
    let f = split_fields(&cs);
    proof {
        assert(f@.len() == fields(feature@).len());
    }
    if f.len() < 10 {
        return None;
    }
    let surface = &f[0];
    let mut word: Vec<char> = Vec::new();
    let mut i: usize = 0;
    while i < surface.len()
        invariant
            i <= surface@.len(),
            word@ == surface@.subrange(0, i as int).map_values(|c: char| punct_replacement(c)),
        decreases surface@.len() - i,
    {
        word.push(replace_punctuation_char(surface[i]));
        i = i + 1;
        assert(word@ =~= surface@.subrange(0, i as int).map_values(|c: char| punct_replacement(c)));
    }
    assert(surface@.subrange(0, i as int) =~= surface@);
    proof {
        assert(f@[0]@ == fields(feature@)[0]);
        assert(f@[9]@ == fields(feature@)[9]);
    }
    let yomi = without_quotes(&f[9]);
    if yomi.len() == 0 {
        return None;
    }
    if yomi.len() == 1 && yomi[0] == '、' {
        proof {
            assert(yomi@ =~= seq!['、']);
        }
        if all_punct_chars(&word) {
            let w2 = word.clone();
            return Some((word, w2));
        } else {
            let mut marks: Vec<char> = Vec::new();
            let mut j: usize = 0;
            while j < word.len()
                invariant
                    j <= word@.len(),
                    marks@ == Seq::new(utf8_len(word@.subrange(0, j as int)), |k: int| '\''),
                decreases word@.len() - j,
            {
                let code = word[j] as u32;
                let width: usize = if code < 0x80 {
                    1
                } else if code < 0x800 {
                    2
                } else if code < 0x10000 {
                    3
                } else {
                    4
                };
                proof {
                    assert(word@.subrange(0, j + 1).drop_last() =~= word@.subrange(0, j as int));
                    assert(width == utf8_width(word@[j as int]));
                }
                let mut w: usize = 0;
                let ghost before = marks@;
                while w < width
                    invariant
                        w <= width,
                        marks@ == before + Seq::new(w as nat, |k: int| '\''),
                    decreases width - w,
                {
                    marks.push('\'');
                    w = w + 1;
                    assert(marks@ =~= before + Seq::new(w as nat, |k: int| '\''));
                }
                j = j + 1;
                assert(marks@ =~= Seq::new(utf8_len(word@.subrange(0, j as int)), |k: int| '\''));
            }
            assert(word@.subrange(0, j as int) =~= word@);
            return Some((word, marks));
        }
    }
    if yomi.len() == 1 && yomi[0] == '？' {
        proof {
            assert(yomi@ =~= seq!['？']);
        }
        if word.len() == 1 && word[0] == '?' {
            proof {
                assert(word@ =~= seq!['?']);
            }
            let mut q: Vec<char> = Vec::new();
            q.push('?');
            proof {
                assert(q@ =~= seq!['?']);
            }
            return Some((word, q));
        }
        return None;
    }
    proof {
        assert(yomi@ != seq!['、']);
        assert(yomi@ != seq!['？']);
    }
    Some((word, yomi))
}

/// The phoneme segments of all readings, or `None` if one of them is rejected.
pub open spec fn kata_all(
    table: Seq<(Seq<char>, Option<Seq<char>>, Seq<char>)>,
    readings: Seq<Seq<char>>,
) -> Option<Seq<Seq<Seq<char>>>>
    decreases readings.len(),
{
    if readings.len() == 0 {
        Some(seq![])
    } else {
        match (kata_all(table, readings.drop_last()), kata_phonemes(table, readings.last())) {
            (Some(prev), Some(p)) => Some(prev.push(p)),
            _ => None,
        }
    }
}

/// The segments one after another.
pub open spec fn concat_all(segs: Seq<Seq<Seq<char>>>) -> Seq<Seq<char>>
    decreases segs.len(),
{
    if segs.len() == 0 {
        seq![]
    } else {
        concat_all(segs.drop_last()) + segs.last()
    }
}

/// How many characters a word counts for: a punctuation word is one unit.
pub open spec fn token_count(word: Seq<char>) -> int {
    if is_punctuation(word) {
        1
    } else {
        word.len() as int
    }
}

/// The even split of `n_phone` over `n_word` slots.
pub open spec fn shares(n_phone: int, n_word: int) -> Seq<i32> {
    Seq::new(n_word as nat, |k: int| crate::align::even_share(n_phone, n_word, k) as i32)
}

/// A word's phonemes can be spread over its characters.
pub open spec fn splittable(word: Seq<char>, seg: Seq<Seq<char>>) -> bool {
    seg.len() <= i32::MAX && token_count(word) <= i32::MAX && (seg.len() > 0 ==> token_count(
        word,
    ) > 0)
}

/// The per-character phoneme counts of the first `n` words.
pub open spec fn word2ph_prefix(
    words: Seq<Seq<char>>,
    segs: Seq<Seq<Seq<char>>>,
    n: nat,
) -> Seq<i32>
    decreases n,
{
    if n == 0 {
        seq![]
    } else {
        word2ph_prefix(words, segs, (n - 1) as nat) + shares(
            segs[n - 1].len() as int,
            token_count(words[n - 1]),
        )
    }
}

/// The phonemes, tones and per-character phoneme counts of an utterance, each framed by a
/// boundary unit, or `None` where a stage rejects it.
pub open spec fn g2p_of(
    table: Seq<(Seq<char>, Option<Seq<char>>, Seq<char>)>,
    parsed: Seq<Seq<char>>,
    labels: Seq<AnalyzedLabel>,
) -> Option<(Seq<Seq<char>>, Seq<i32>, Seq<i32>)> {
    match prosody_prefix(labels, labels.len()) {
        None => None,
        Some(marks) => if marks.len() > i32::MAX {
            None
        } else {
            match phone_tones_of(marks) {
                None => None,
                Some(pts) => match word_units(parsed) {
                    None => None,
                    Some(units) => match kata_all(
                        table,
                        units.map_values(|u: (Seq<char>, Seq<char>)| u.1),
                    ) {
                        None => None,
                        Some(segs) => {
                            let sep = handled(segs, segs.len());
                            let words = units.map_values(|u: (Seq<char>, Seq<char>)| u.0);
                            match aligned(concat_all(sep), pts) {
                                None => None,
                                Some(al) => if forall|k: int|
                                    0 <= k < sep.len() ==> splittable(words[k], sep[k]) {
                                    Some(
                                        (
                                            seq![seq!['_']] + al.map_values(
                                                |p: (Seq<char>, i32)| p.0,
                                            ) + seq![seq!['_']],
                                            seq![0i32] + al.map_values(|p: (Seq<char>, i32)| p.1)
                                                + seq![0i32],
                                            seq![1i32] + word2ph_prefix(words, sep, sep.len())
                                                + seq![1i32],
                                        ),
                                    )
                                } else {
                                    None
                                },
                            }
                        },
                    },
                },
            }
        },
    }
}

fn phonemes_of_readings(table: &Vec<Mora>, readings: &Vec<String>) -> (r: Result<
    Vec<Vec<String>>,
    Sbv2CoreError,
>)
    ensures
        r is Ok <==> kata_all(moras_view(table@), strings_view(readings@)) is Some,
        r is Ok ==> segs_view(r->Ok_0@) == kata_all(moras_view(table@), strings_view(readings@))->0,
        r is Err ==> r->Err_0 is NotKatakana,
{
    let ghost rv = strings_view(readings@);
    let ghost tv = moras_view(table@);
    let mut out: Vec<Vec<String>> = Vec::new();
    let mut i: usize = 0;
    while i < readings.len()
        invariant
            rv == strings_view(readings@),
            tv == moras_view(table@),
            i <= readings@.len(),
            kata_all(tv, rv.subrange(0, i as int)) == Some(segs_view(out@)),
        decreases readings@.len() - i,
    {
        proof {
            assert(rv.subrange(0, i + 1).drop_last() =~= rv.subrange(0, i as int));
        }
        match kata_to_phoneme_list(table, readings[i].clone()) {
            Err(e) => {
                proof {
                    lemma_kata_all_fail(tv, rv, (i + 1) as nat);
                }
                return Err(e);
            },
            Ok(p) => {
                let ghost before = segs_view(out@);
                out.push(p);
                proof {
                    assert(segs_view(out@) =~= before.push(strings_view(p@)));
                }
            },
        }
        i = i + 1;
    }
    proof {
        assert(rv.subrange(0, i as int) =~= rv);
    }
    Ok(out)
}

proof fn lemma_kata_all_fail(
    table: Seq<(Seq<char>, Option<Seq<char>>, Seq<char>)>,
    readings: Seq<Seq<char>>,
    k: nat,
)
    requires
        k <= readings.len(),
        kata_all(table, readings.subrange(0, k as int)) is None,
    ensures
        kata_all(table, readings) is None,
    decreases readings.len() - k,
{
    if k < readings.len() {
        assert(readings.subrange(0, (k + 1) as int).drop_last() =~= readings.subrange(0, k as int));
        lemma_kata_all_fail(table, readings, (k + 1) as nat);
    } else {
        assert(readings.subrange(0, k as int) =~= readings);
    }
}

proof fn lemma_kata_all_len(
    table: Seq<(Seq<char>, Option<Seq<char>>, Seq<char>)>,
    readings: Seq<Seq<char>>,
)
    requires
        kata_all(table, readings) is Some,
    ensures
        kata_all(table, readings)->0.len() == readings.len(),
    decreases readings.len(),
{
    if readings.len() > 0 {
        lemma_kata_all_len(table, readings.drop_last());
    }
}

fn flatten_segments(sep: &Vec<Vec<String>>) -> (r: Vec<String>)
    ensures
        strings_view(r@) == concat_all(segs_view(sep@)),
{
    let ghost sv = segs_view(sep@);
    let mut out: Vec<String> = Vec::new();
    let mut i: usize = 0;
    while i < sep.len()
        invariant
            sv == segs_view(sep@),
            i <= sep@.len(),
            strings_view(out@) == concat_all(sv.subrange(0, i as int)),
        decreases sep@.len() - i,
    {
        let mut j: usize = 0;
        let ghost start = strings_view(out@);
        while j < sep[i].len()
            invariant
                i < sep@.len(),
                j <= sep@[i as int]@.len(),
                strings_view(out@) == start + strings_view(sep@[i as int]@).subrange(0, j as int),
            decreases sep@[i as int]@.len() - j,
        {
            let ghost ov = strings_view(out@);
            out.push(sep[i][j].clone());
            proof {
                assert(strings_view(out@) =~= ov.push(sep@[i as int]@[j as int]@));
            }
            j = j + 1;
            assert(strings_view(out@) =~= start + strings_view(sep@[i as int]@).subrange(0, j as int));
        }
        proof {
            assert(strings_view(sep@[i as int]@).subrange(0, j as int) =~= sv[i as int]);
            assert(sv.subrange(0, i + 1).drop_last() =~= sv.subrange(0, i as int));
        }
        i = i + 1;
    }
    proof {
        assert(sv.subrange(0, i as int) =~= sv);
    }
    out
}

impl JTalkProcess {
    pub fn new(parsed: Vec<String>, labels: Vec<AnalyzedLabel>) -> (r: Self)
        ensures
            r.parsed == parsed,
            r.labels == labels,
    {
        JTalkProcess { parsed, labels }
    }

    /// The surface texts and the readings of the morphemes.
    pub fn text_to_seq_kata(&self) -> (r: Result<(Vec<String>, Vec<String>), Sbv2CoreError>)
        ensures
            r is Ok <==> word_units(strings_view(self.parsed@)) is Some,
            r is Ok ==> {
                let units = word_units(strings_view(self.parsed@))->0;
                &&& strings_view(r->Ok_0.0@) == units.map_values(|u: (Seq<char>, Seq<char>)| u.0)
                &&& strings_view(r->Ok_0.1@) == units.map_values(|u: (Seq<char>, Seq<char>)| u.1)
            },
            r is Err ==> r->Err_0 is MalformedFeature,
    {
        let ghost pv = strings_view(self.parsed@);
        let mut seq_text: Vec<String> = Vec::new();
        let mut seq_kata: Vec<String> = Vec::new();
        let mut i: usize = 0;
        while i < self.parsed.len()
            invariant
                pv == strings_view(self.parsed@),
                i <= self.parsed@.len(),
                word_units(pv.subrange(0, i as int)) is Some,
                strings_view(seq_text@) == word_units(pv.subrange(0, i as int))->0.map_values(
                    |u: (Seq<char>, Seq<char>)| u.0,
                ),
                strings_view(seq_kata@) == word_units(pv.subrange(0, i as int))->0.map_values(
                    |u: (Seq<char>, Seq<char>)| u.1,
                ),
            decreases self.parsed@.len() - i,
        {
            proof {
                assert(pv.subrange(0, i + 1).drop_last() =~= pv.subrange(0, i as int));
                assert(pv.subrange(0, i + 1).last() == self.parsed@[i as int]@);
            }
            match read_word_unit(&self.parsed[i]) {
                None => {
                    proof {
                        lemma_word_units_fail(pv, (i + 1) as nat);
                    }
                    return Err(Sbv2CoreError::MalformedFeature(self.parsed[i].clone()));
                },
                Some(u) => {
                    let ghost t0 = strings_view(seq_text@);
                    let ghost k0 = strings_view(seq_kata@);
                    seq_text.push(string_of(u.0.as_slice()));
                    seq_kata.push(string_of(u.1.as_slice()));
                    proof {
                        assert(strings_view(seq_text@) =~= t0.push(u.0@));
                        assert(strings_view(seq_kata@) =~= k0.push(u.1@));
                        let units = word_units(pv.subrange(0, (i + 1) as int))->0;
                        assert(strings_view(seq_text@) =~= units.map_values(
                            |u: (Seq<char>, Seq<char>)| u.0,
                        ));
                        assert(strings_view(seq_kata@) =~= units.map_values(
                            |u: (Seq<char>, Seq<char>)| u.1,
                        ));
                    }
                },
            }
            i = i + 1;
        }
        proof {
            assert(pv.subrange(0, i as int) =~= pv);
        }
        Ok((seq_text, seq_kata))
    }
}

/// Which error `g2p` reports: that of the first stage that rejects the utterance.
pub open spec fn g2p_error_is(
    table: Seq<(Seq<char>, Option<Seq<char>>, Seq<char>)>,
    parsed: Seq<Seq<char>>,
    labels: Seq<AnalyzedLabel>,
    e: Sbv2CoreError,
) -> bool {
    match prosody_prefix(labels, labels.len()) {
        None => e is InternalConsistency,
        Some(marks) => if marks.len() > i32::MAX {
            e is InternalConsistency
        } else {
            match phone_tones_of(marks) {
                None => e is InvalidToneValues || e is InternalConsistency,
                Some(pts) => match word_units(parsed) {
                    None => e is MalformedFeature,
                    Some(units) => match kata_all(
                        table,
                        units.map_values(|u: (Seq<char>, Seq<char>)| u.1),
                    ) {
                        None => e is NotKatakana,
                        Some(segs) => match aligned(concat_all(handled(segs, segs.len())), pts) {
                            None => e is MismatchedPhoneme,
                            Some(_) => e is InternalConsistency,
                        },
                    },
                },
            }
        },
    }
}

impl JTalkProcess {
    /// Phonemes, tones and per-character phoneme counts of the utterance, each framed by a
    /// boundary unit at both ends.
    pub fn g2p(&self, table: &Vec<Mora>) -> (r: Result<(Vec<String>, Vec<i32>, Vec<i32>), Sbv2CoreError>)
        ensures
            r is Ok <==> g2p_of(moras_view(table@), strings_view(self.parsed@), self.labels@) is Some,
            r is Ok ==> {
                let g = g2p_of(moras_view(table@), strings_view(self.parsed@), self.labels@)->0;
                &&& strings_view(r->Ok_0.0@) == g.0
                &&& r->Ok_0.1@ == g.1
                &&& r->Ok_0.2@ == g.2
            },
            r is Err ==> g2p_error_is(
                moras_view(table@),
                strings_view(self.parsed@),
                self.labels@,
                r->Err_0,
            ),
    {
        let prosodies = match g2p_prosody(&self.labels) {
            Ok(p) => p,
            Err(e) => {
                return Err(e);
            },
        };
        if prosodies.len() > i32::MAX as usize {
            return Err(Sbv2CoreError::InternalConsistency("prosody stream too long".to_owned()));
        }
        let ghost marks = marks_view(prosodies@);
        let phone_tone_list_wo_punct = match g2phone_tone_wo_punct(&prosodies) {
            Ok(p) => p,
            Err(e) => {
                return Err(e);
            },
        };
        let (seq_text, seq_kata) = match self.text_to_seq_kata() {
            Ok(t) => t,
            Err(e) => {
                return Err(e);
            },
        };
        let ghost units = word_units(strings_view(self.parsed@))->0;
        proof {
            assert(strings_view(seq_kata@) == units.map_values(|u: (Seq<char>, Seq<char>)| u.1));
        }
        let segments = match phonemes_of_readings(table, &seq_kata) {
            Ok(sg) => sg,
            Err(e) => {
                return Err(e);
            },
        };
        let ghost segs = segs_view(segments@);
        proof {
            lemma_kata_all_len(moras_view(table@), strings_view(seq_kata@));
        }
        let sep_phonemes = handle_long(segments);
        let phone_w_punct = flatten_segments(&sep_phonemes);
        let ghost pts = pts_view(phone_tone_list_wo_punct@);
        let ghost flat = strings_view(phone_w_punct@);
        let phone_tone_list = match align_tones(phone_w_punct, phone_tone_list_wo_punct) {
            Ok(a) => a,
            Err(e) => {
                return Err(e);
            },
        };
        let ghost sep = segs_view(sep_phonemes@);
        let ghost words = units.map_values(|u: (Seq<char>, Seq<char>)| u.0);
        let mut word2ph: Vec<i32> = Vec::new();
        word2ph.push(1);
        let mut i: usize = 0;
        proof {
            crate::kata::lemma_handled_len(segs, segs.len());
        }
        while i < sep_phonemes.len()
            invariant
                sep == segs_view(sep_phonemes@),
                words == strings_view(seq_text@),
                prosody_prefix(self.labels@, self.labels@.len()) == Some(marks),
                marks.len() <= i32::MAX,
                phone_tones_of(marks) == Some(pts),
                word_units(strings_view(self.parsed@)) == Some(units),
                kata_all(moras_view(table@), units.map_values(|u: (Seq<char>, Seq<char>)| u.1))
                    == Some(segs),
                sep == handled(segs, segs.len()),
                words == units.map_values(|u: (Seq<char>, Seq<char>)| u.0),
                aligned(concat_all(sep), pts) == Some(pts_view(phone_tone_list@)),
                sep.len() == words.len(),
                i <= sep.len(),
                forall|k: int| 0 <= k < i ==> splittable(words[k], sep[k]),
                word2ph@ == seq![1i32] + word2ph_prefix(words, sep, i as nat),
            decreases sep.len() - i,
        {
            let phone_len = sep_phonemes[i].len();
            let word = &seq_text[i];
            let word_len: usize = if punctuation(word.as_str()) {
                1
            } else {
                chars_of(word.as_str()).len()
            };
            if phone_len > i32::MAX as usize || word_len > i32::MAX as usize || (phone_len > 0 && word_len == 0) {
                proof {
                    assert(!splittable(words[i as int], sep[i as int]));
                    let tv = moras_view(table@);
                    assert(prosody_prefix(self.labels@, self.labels@.len()) == Some(marks));
                    assert(marks.len() <= i32::MAX);
                    assert(phone_tones_of(marks) == Some(pts));
                    assert(word_units(strings_view(self.parsed@)) == Some(units));
                    assert(kata_all(tv, units.map_values(|u: (Seq<char>, Seq<char>)| u.1)) == Some(segs));
                    assert(sep == handled(segs, segs.len()));
                    assert(aligned(concat_all(sep), pts) is Some);
                    assert(g2p_of(moras_view(table@), strings_view(self.parsed@), self.labels@) is None);
                }
                return Err(Sbv2CoreError::InternalConsistency("word phonemes cannot be spread over its characters".to_owned()));
            }
            let shares_v = crate::align::distribute_phone(phone_len as i32, word_len as i32);
            let ghost before = word2ph@;
            let mut k: usize = 0;
            while k < shares_v.len()
                invariant
                    k <= shares_v@.len(),
                    word2ph@ == before + shares_v@.subrange(0, k as int),
                decreases shares_v@.len() - k,
            {
                word2ph.push(shares_v[k]);
                k = k + 1;
                assert(word2ph@ =~= before + shares_v@.subrange(0, k as int));
            }
            proof {
                assert(shares_v@ =~= shares(phone_len as int, word_len as int));
                assert(shares_v@.subrange(0, k as int) =~= shares_v@);
                assert(word2ph@ =~= seq![1i32] + word2ph_prefix(words, sep, (i + 1) as nat));
            }
            i = i + 1;
        }
        word2ph.push(1);
        let ghost al = pts_view(phone_tone_list@);
        let mut phones: Vec<String> = Vec::new();
        let mut tones: Vec<i32> = Vec::new();
        phones.push(string_of(&['_']));
        tones.push(0);
        let mut j: usize = 0;
        while j < phone_tone_list.len()
            invariant
                al == pts_view(phone_tone_list@),
                j <= phone_tone_list@.len(),
                phones@.len() == j + 1,
                tones@.len() == j + 1,
                phones@[0]@ == seq!['_'],
                tones@[0] == 0,
                forall|k: int| 0 <= k < j ==> (#[trigger] phones@[k + 1])@ == al[k].0,
                forall|k: int| 0 <= k < j ==> #[trigger] tones@[k + 1] == al[k].1,
            decreases phone_tone_list@.len() - j,
        {
            phones.push(phone_tone_list[j].0.clone());
            tones.push(phone_tone_list[j].1);
            j = j + 1;
        }
        phones.push(string_of(&['_']));
        tones.push(0);
        proof {
            assert(['_']@ =~= seq!['_']);
            let pv = strings_view(phones@);
            let pt = seq![seq!['_']] + al.map_values(|p: (Seq<char>, i32)| p.0) + seq![seq!['_']];
            let tt = seq![0i32] + al.map_values(|p: (Seq<char>, i32)| p.1) + seq![0i32];
            assert(j == al.len());
            assert(pv.len() == pt.len());
            assert forall|k: int| 0 <= k < pv.len() implies pv[k] == pt[k] by {
                if 1 <= k <= al.len() {
                    assert(phones@[(k - 1) + 1]@ == al[k - 1].0);
                }
            }
            assert(pv =~= pt);
            assert forall|k: int| 0 <= k < tt.len() implies tones@[k] == tt[k] by {
                if 1 <= k <= al.len() {
                    assert(tones@[(k - 1) + 1] == al[k - 1].1);
                }
            }
            assert(tones@ =~= tt);
        }
        Ok((phones, tones, word2ph))
    }
}

proof fn lemma_sum_concat(a: Seq<i32>, b: Seq<i32>)
    ensures
        crate::align::sum_i32(a + b) == crate::align::sum_i32(a) + crate::align::sum_i32(b),
    decreases b.len(),
{
    if b.len() > 0 {
        lemma_sum_concat(a, b.drop_last());
        assert((a + b).drop_last() =~= a + b.drop_last());
    } else {
        assert(a + b =~= a);
    }
}

proof fn lemma_shares_sum(p: int, w: int)
    requires
        0 <= p <= i32::MAX,
        0 <= w <= i32::MAX,
        p > 0 ==> w > 0,
    ensures
        crate::align::sum_i32(shares(p, w)) == p,
        forall|k: int| 0 <= k < w ==> 0 <= #[trigger] shares(p, w)[k],
{
    let s = shares(p, w);
    if w == 0 {
        assert(s =~= Seq::<i32>::empty());
    } else {
        let q = p / w;
        let rem = p % w;
        assert(0 <= q <= p && q + rem <= p) by (nonlinear_arith)
            requires
                q == p / w,
                rem == p % w,
                w >= 1,
                p >= 0,
        ;
        assert forall|k: int| 0 <= k < w implies s[k] as int == crate::align::even_share(p, w, k) by {}
        crate::align::lemma_distribute_balanced(p as i32, w as i32, s);
    }
}

proof fn lemma_word2ph_sum(words: Seq<Seq<char>>, sep: Seq<Seq<Seq<char>>>, n: nat)
    requires
        n <= sep.len(),
        sep.len() == words.len(),
        forall|k: int| 0 <= k < sep.len() ==> splittable(words[k], sep[k]),
    ensures
        crate::align::sum_i32(word2ph_prefix(words, sep, n)) == concat_all(sep.subrange(0, n as int)).len(),
    decreases n,
{
    if n == 0 {
        assert(sep.subrange(0, 0) =~= Seq::<Seq<Seq<char>>>::empty());
        assert(word2ph_prefix(words, sep, 0) =~= Seq::<i32>::empty());
    } else {
        lemma_word2ph_sum(words, sep, (n - 1) as nat);
        let k = n - 1;
        assert(splittable(words[k], sep[k]));
        lemma_shares_sum(sep[k].len() as int, token_count(words[k]));
        lemma_sum_concat(
            word2ph_prefix(words, sep, (n - 1) as nat),
            shares(sep[k].len() as int, token_count(words[k])),
        );
        assert(sep.subrange(0, n as int).drop_last() =~= sep.subrange(0, n - 1));
    }
}

/// In every result of `g2p` the per-character phoneme counts add up to the number of
/// phonemes, boundary units included, so the broadcast feature matrix (twice the sum, plus
/// one) has one row per slot of the interleaved phoneme sequence.
pub proof fn lemma_g2p_counts(
    table: Seq<(Seq<char>, Option<Seq<char>>, Seq<char>)>,
    parsed: Seq<Seq<char>>,
    labels: Seq<AnalyzedLabel>,
)
    requires
        g2p_of(table, parsed, labels) is Some,
    ensures
        crate::align::sum_i32((g2p_of(table, parsed, labels)->0).2) == (g2p_of(
            table,
            parsed,
            labels,
        )->0).0.len(),
{
    let marks = prosody_prefix(labels, labels.len())->0;
    let pts = phone_tones_of(marks)->0;
    let units = word_units(parsed)->0;
    let readings = units.map_values(|u: (Seq<char>, Seq<char>)| u.1);
    let segs = kata_all(table, readings)->0;
    lemma_kata_all_len(table, readings);
    crate::kata::lemma_handled_len(segs, segs.len());
    let sep = handled(segs, segs.len());
    let words = units.map_values(|u: (Seq<char>, Seq<char>)| u.0);
    let flat = concat_all(sep);
    crate::align::lemma_align_shape(flat, pts, flat.len());
    let al = aligned(flat, pts)->0;
    lemma_word2ph_sum(words, sep, sep.len());
    assert(sep.subrange(0, sep.len() as int) =~= sep);
    let w = word2ph_prefix(words, sep, sep.len());
    lemma_sum_concat(seq![1i32], w);
    lemma_sum_concat(seq![1i32] + w, seq![1i32]);
    assert(crate::align::sum_i32(seq![1i32]) == 1) by {
        assert(seq![1i32].drop_last() =~= Seq::<i32>::empty());
        assert(crate::align::sum_i32(Seq::<i32>::empty()) == 0);
        assert(seq![1i32].last() == 1i32);
        assert(seq![1i32].len() == 1);
    }
}

} // verus!
