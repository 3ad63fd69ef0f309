use vstd::prelude::*;

use crate::errors::Sbv2CoreError;
use crate::text::{chars_equal, chars_of, string_of};
use crate::tone::{canonical_phrase, fix_phone_tone, pts_view, tones_acceptable};

verus! {

/// Mora position fields of an analyzed label.
#[derive(Debug, Clone, Copy)]
pub struct MoraPosition {
    pub relative_accent_position: i32,
    pub position_forward: i32,
    pub position_backward: i32,
}

/// One unit of the analyzer's label stream, as plain values.
#[derive(Debug, Clone)]
pub struct AnalyzedLabel {
    /// The phoneme identity ("sil", "pau", "a", "cl", ...), if the analyzer gave one.
    pub phoneme: Option<String>,
    pub mora: Option<MoraPosition>,
    /// Mora count of the accent phrase the label belongs to.
    pub accent_phrase_mora_count: Option<i32>,
    /// Whether the preceding accent phrase is interrogative, if there is one.
    pub prev_phrase_interrogative: Option<bool>,
}

/// A symbol of the prosody stream.
#[derive(Debug, Clone)]
pub enum ProsodySymbol {
    PhraseStart,
    PhraseEnd { interrogative: bool },
    Pause,
    AccentBoundary,
    ToneUp,
    ToneDown,
    Phone(String),
}

/// The mathematical value of a prosody symbol.
pub enum ProsodyMark {
    PhraseStart,
    PhraseEnd { interrogative: bool },
    Pause,
    AccentBoundary,
    ToneUp,
    ToneDown,
    Phone(Seq<char>),
}

impl View for ProsodySymbol {
    type V = ProsodyMark;

    open spec fn view(&self) -> ProsodyMark {
        match self {
            ProsodySymbol::PhraseStart => ProsodyMark::PhraseStart,
            ProsodySymbol::PhraseEnd { interrogative } => ProsodyMark::PhraseEnd {
                interrogative: *interrogative,
            },
            ProsodySymbol::Pause => ProsodyMark::Pause,
            ProsodySymbol::AccentBoundary => ProsodyMark::AccentBoundary,
            ProsodySymbol::ToneUp => ProsodyMark::ToneUp,
            ProsodySymbol::ToneDown => ProsodyMark::ToneDown,
            ProsodySymbol::Phone(p) => ProsodyMark::Phone(p@),
        }
    }
}

pub open spec fn marks_view(v: Seq<ProsodySymbol>) -> Seq<ProsodyMark> {
    v.map_values(|s: ProsodySymbol| s@)
}

/// The geminate placeholder "cl" is spelled "q"; other phones are kept.
pub open spec fn phone_spelling(p: Seq<char>) -> Seq<char> {
    if p == seq!['c', 'l'] {
        seq!['q']
    } else {
        p
    }
}

/// The state after walking the first `n` symbols: tones emitted so far, the open phrase and
/// the running tone; `None` once a phrase is rejected or a stream marker is out of place.
pub open spec fn walk(
    marks: Seq<ProsodyMark>,
    n: nat,
) -> Option<(Seq<(Seq<char>, i32)>, Seq<(Seq<char>, i32)>, int)>
    decreases n,
{
    if n == 0 {
        Some((seq![], seq![], 0))
    } else {
        match walk(marks, (n - 1) as nat) {
            None => None,
            Some(st) => {
                let (res, cur, tone) = st;
                let i = n - 1;
                match marks[i] {
                    ProsodyMark::PhraseStart => if i == 0 {
                        Some(st)
                    } else {
                        None
                    },
                    ProsodyMark::PhraseEnd { .. } => if tones_acceptable(cur) && i == marks.len()
                        - 1 {
                        Some((res + canonical_phrase(cur), seq![], 0))
                    } else {
                        None
                    },
                    ProsodyMark::Pause | ProsodyMark::AccentBoundary => if tones_acceptable(cur) {
                        Some((res + canonical_phrase(cur), seq![], 0))
                    } else {
                        None
                    },
                    ProsodyMark::ToneUp => Some((res, cur, tone + 1)),
                    ProsodyMark::ToneDown => Some((res, cur, tone - 1)),
                    ProsodyMark::Phone(p) => Some((res, cur.push((phone_spelling(p), tone as i32)), tone)),
                }
            },
        }
    }
}

/// Once the walk has failed it stays failed.
pub proof fn lemma_walk_fails_on(marks: Seq<ProsodyMark>, k: nat, m: nat)
    requires
        k <= m,
        walk(marks, k) is None,
    ensures
        walk(marks, m) is None,
    decreases m - k,
{
    if k < m {
        lemma_walk_fails_on(marks, k, (m - 1) as nat);
    }
}

/// The phoneme/tone list of a prosody stream, without punctuation: each phrase is validated
/// and canonicalized when a boundary closes it.
pub open spec fn phone_tones_of(marks: Seq<ProsodyMark>) -> Option<Seq<(Seq<char>, i32)>> {
    match walk(marks, marks.len()) {
        Some(st) => Some(st.0),
        None => None,
    }
}

/// Walks the prosody stream into phoneme/tone pairs, phrase by phrase.
pub fn g2phone_tone_wo_punct(prosodies: &Vec<ProsodySymbol>) -> (r: Result<
    Vec<(String, i32)>,
    Sbv2CoreError,
>)
    requires
        prosodies@.len() <= i32::MAX,
    ensures
        r is Ok <==> phone_tones_of(marks_view(prosodies@)) is Some,
        r is Ok ==> pts_view(r->Ok_0@) == phone_tones_of(marks_view(prosodies@))->0,
        r is Err ==> (r->Err_0 is InvalidToneValues || r->Err_0 is InternalConsistency),
{
    let ghost marks = marks_view(prosodies@);
    let mut results: Vec<(String, i32)> = Vec::new();
    let mut current_phrase: Vec<(String, i32)> = Vec::new();
    let mut current_tone: i32 = 0;
    let n = prosodies.len();
    let mut i: usize = 0;
    while i < n
        invariant
            n == prosodies@.len(),
            n <= i32::MAX,
            i <= n,
            marks == marks_view(prosodies@),
            -(i as int) <= current_tone <= i as int,
            walk(marks, i as nat) == Some(
                (pts_view(results@), pts_view(current_phrase@), current_tone as int),
            ),
        decreases n - i,
    {
        proof {
            assert(marks[i as int] == prosodies@[i as int]@);
            if walk(marks, (i + 1) as nat) is None {
                lemma_walk_fails_on(marks, (i + 1) as nat, n as nat);
            }
        }
        match &prosodies[i] {
            ProsodySymbol::PhraseStart => {
                if i != 0 {
                    return Err(Sbv2CoreError::InternalConsistency("phrase start is not first".to_owned()));
                }
            },
            ProsodySymbol::PhraseEnd { .. } => {
                let phrase = current_phrase;
                current_phrase = Vec::new();
                let fixed = fix_phone_tone(phrase);
                match fixed {
                    Err(e) => {
                        return Err(e);
                    },
                    Ok(mut f) => {
                        if i != n - 1 {
                            return Err(Sbv2CoreError::InternalConsistency("phrase end is not last".to_owned()));
                        }
                        let ghost before = results@;
                        let ghost added = f@;
                        results.append(&mut f);
                        proof {
                            assert(pts_view(results@) =~= pts_view(before) + pts_view(added));
                            assert(pts_view(current_phrase@) =~= seq![]);
                        }
                        current_tone = 0;
                    },
                }
            },
            ProsodySymbol::Pause | ProsodySymbol::AccentBoundary => {
                let phrase = current_phrase;
                current_phrase = Vec::new();
                let fixed = fix_phone_tone(phrase);
                match fixed {
                    Err(e) => {
                        return Err(e);
                    },
                    Ok(mut f) => {
                        let ghost before = results@;
                        let ghost added = f@;
                        results.append(&mut f);
                        proof {
                            assert(pts_view(results@) =~= pts_view(before) + pts_view(added));
                            assert(pts_view(current_phrase@) =~= seq![]);
                        }
                        current_tone = 0;
                    },
                }
            },
            ProsodySymbol::ToneUp => {
                current_tone = current_tone + 1;
            },
            ProsodySymbol::ToneDown => {
                current_tone = current_tone - 1;
            },
            ProsodySymbol::Phone(p) => {
                let cs = chars_of(p.as_str());
                let spelled = if cs.len() == 2 && cs[0] == 'c' && cs[1] == 'l' {
                    string_of(&['q'])
                } else {
                    p.clone()
                };
                proof {
                    if cs@.len() == 2 && cs@[0] == 'c' && cs@[1] == 'l' {
                        assert(p@ =~= seq!['c', 'l']);
                    }
                    assert(spelled@ == phone_spelling(p@)) by {
                        if p@ == seq!['c', 'l'] {
                            assert(cs@[0] == 'c' && cs@[1] == 'l');
                            assert(seq!['q'] =~= ['q']@);
                        }
                    }
                }
                let ghost before = current_phrase@;
                current_phrase.push((spelled, current_tone));
                proof {
                    assert(pts_view(current_phrase@) =~= pts_view(before).push(
                        (phone_spelling(p@), current_tone),
                    ));
                }
            },
        }
        i = i + 1;
    }
    Ok(results)
}

/// Unvoiced vowels, written in upper case by the analyzer, are brought to lower case.
pub open spec fn lowered_phone(p: Seq<char>) -> Seq<char> {
    if p == seq!['A'] {
        seq!['a']
    } else if p == seq!['I'] {
        seq!['i']
    } else if p == seq!['U'] {
        seq!['u']
    } else if p == seq!['E'] {
        seq!['e']
    } else if p == seq!['O'] {
        seq!['o']
    } else {
        p
    }
}

/// A vowel, the moraic nasal or the geminate placeholder.
pub open spec fn vowel_like(p: Seq<char>) -> bool {
    (p.len() == 1 && (p[0] == 'a' || p[0] == 'e' || p[0] == 'i' || p[0] == 'o' || p[0] == 'u'
        || p[0] == 'A' || p[0] == 'E' || p[0] == 'I' || p[0] == 'O' || p[0] == 'U' || p[0] == 'N'))
        || p == seq!['c', 'l']
}

pub open spec fn rel_accent(l: AnalyzedLabel) -> int {
    match l.mora {
        Some(m) => m.relative_accent_position as int,
        None => -50,
    }
}

pub open spec fn pos_forward(l: AnalyzedLabel) -> int {
    match l.mora {
        Some(m) => m.position_forward as int,
        None => -50,
    }
}

pub open spec fn pos_backward(l: AnalyzedLabel) -> int {
    match l.mora {
        Some(m) => m.position_backward as int,
        None => -50,
    }
}

pub open spec fn phrase_moras(l: AnalyzedLabel) -> int {
    match l.accent_phrase_mora_count {
        Some(c) => c as int,
        None => -50,
    }
}

/// The boundary mark that follows phone `p` of label `l` when `next` comes after it:
/// an accent-phrase boundary, a downstep, an initial rise, in this priority, or none.
pub open spec fn lookahead_marks(p: Seq<char>, l: AnalyzedLabel, next: AnalyzedLabel) -> Seq<ProsodyMark> {
    let a1 = rel_accent(l);
    let a2 = pos_forward(l);
    let a3 = pos_backward(l);
    let f1 = phrase_moras(l);
    let a2_next = pos_forward(next);
    if a3 == 1 && a2_next == 1 && vowel_like(p) {
        seq![ProsodyMark::AccentBoundary]
    } else if a1 == 0 && a2_next == a2 + 1 && a2 != f1 {
        seq![ProsodyMark::ToneDown]
    } else if a2 == 1 && a2_next == 2 {
        seq![ProsodyMark::ToneUp]
    } else {
        seq![]
    }
}

/// The marks that label `i` contributes, or `None` where the stream breaks its shape.
pub open spec fn label_marks(labels: Seq<AnalyzedLabel>, i: int) -> Option<Seq<ProsodyMark>> {
    match labels[i].phoneme {
        None => None,
        Some(ph) => {
            let p = lowered_phone(ph@);
            if p == seq!['s', 'i', 'l'] {
                if i == 0 {
                    Some(seq![ProsodyMark::PhraseStart])
                } else if i == labels.len() - 1 {
                    match labels[i].prev_phrase_interrogative {
                        Some(q) => Some(seq![ProsodyMark::PhraseEnd { interrogative: q }]),
                        None => None,
                    }
                } else {
                    None
                }
            } else if p == seq!['p', 'a', 'u'] {
                Some(seq![ProsodyMark::Pause])
            } else if i + 1 < labels.len() {
                Some(seq![ProsodyMark::Phone(p)] + lookahead_marks(p, labels[i], labels[i + 1]))
            } else {
                None
            }
        },
    }
}

/// The prosody stream of the first `n` labels.
pub open spec fn prosody_prefix(labels: Seq<AnalyzedLabel>, n: nat) -> Option<Seq<ProsodyMark>>
    decreases n,
{
    if n == 0 {
        Some(seq![])
    } else {
        match prosody_prefix(labels, (n - 1) as nat) {
            None => None,
            Some(prev) => match label_marks(labels, n - 1) {
                None => None,
                Some(m) => Some(prev + m),
            },
        }
    }
}

pub proof fn lemma_prosody_fails_on(labels: Seq<AnalyzedLabel>, k: nat, m: nat)
    requires
        k <= m,
        prosody_prefix(labels, k) is None,
    ensures
        prosody_prefix(labels, m) is None,
    decreases m - k,
{
    if k < m {
        lemma_prosody_fails_on(labels, k, (m - 1) as nat);
    }
}

fn lowered(cs: &Vec<char>, ph: &String) -> (r: String)
    requires
        cs@ == ph@,
    ensures
        r@ == lowered_phone(ph@),
{
    if cs.len() == 1 {
        let c = cs[0];
        let l = if c == 'A' {
            'a'
        } else if c == 'I' {
            'i'
        } else if c == 'U' {
            'u'
        } else if c == 'E' {
            'e'
        } else if c == 'O' {
            'o'
        } else {
            c
        };
        proof {
            assert(ph@ =~= seq![c]);
        }
        let r = string_of(&[l]);
        proof {
            assert(r@ =~= seq![l]);
        }
        r
    } else {
        ph.clone()
    }
}

fn position_or_default(m: Option<MoraPosition>, which: u8) -> (r: i64)
    ensures
        m is Some && which == 0 ==> r == m->0.relative_accent_position,
        m is Some && which == 1 ==> r == m->0.position_forward,
        m is Some && which >= 2 ==> r == m->0.position_backward,
        m is None ==> r == -50,
{
    match m {
        Some(p) => if which == 0 {
            p.relative_accent_position as i64
        } else if which == 1 {
            p.position_forward as i64
        } else {
            p.position_backward as i64
        },
        None => -50,
    }
}

/// Interprets the analyzer's label stream as a prosody stream: phrase start and end,
/// pauses, phones, and the boundary marks that the look-ahead rules place after phones.
pub fn g2p_prosody(labels: &Vec<AnalyzedLabel>) -> (r: Result<Vec<ProsodySymbol>, Sbv2CoreError>)
    ensures
        r is Ok <==> prosody_prefix(labels@, labels@.len()) is Some,
        r is Ok ==> marks_view(r->Ok_0@) == prosody_prefix(labels@, labels@.len())->0,
        r is Err ==> r->Err_0 is InternalConsistency,
{
    let n = labels.len();
    let mut phones: Vec<ProsodySymbol> = Vec::new();
    let mut i: usize = 0;
    while i < n
        invariant
            n == labels@.len(),
            i <= n,
            prosody_prefix(labels@, i as nat) == Some(marks_view(phones@)),
        decreases n - i,
    {
        proof {
            if prosody_prefix(labels@, (i + 1) as nat) is None {
                lemma_prosody_fails_on(labels@, (i + 1) as nat, n as nat);
            }
        }
        let ghost before = phones@;
        let label = &labels[i];
        let ph = match &label.phoneme {
            Some(ph) => ph,
            None => {
                return Err(Sbv2CoreError::InternalConsistency("label without phoneme".to_owned()));
            },
        };
        let cs = chars_of(ph.as_str());
        let lowered_ph = lowered(&cs, ph);
        let pcs = chars_of(lowered_ph.as_str());
        if chars_equal(&pcs, &['s', 'i', 'l']) {
            proof {
                assert(['s', 'i', 'l']@ =~= seq!['s', 'i', 'l']);
            }
            if i == 0 {
                phones.push(ProsodySymbol::PhraseStart);
            } else if i == n - 1 {
                match label.prev_phrase_interrogative {
                    Some(q) => phones.push(ProsodySymbol::PhraseEnd { interrogative: q }),
                    None => {
                        return Err(Sbv2CoreError::InternalConsistency("final silence without phrase".to_owned()));
                    },
                }
            } else {
                return Err(Sbv2CoreError::InternalConsistency("silence inside the utterance".to_owned()));
            }
        } else if chars_equal(&pcs, &['p', 'a', 'u']) {
            proof {
                assert(['s', 'i', 'l']@ =~= seq!['s', 'i', 'l']);
                assert(['p', 'a', 'u']@ =~= seq!['p', 'a', 'u']);
            }
            phones.push(ProsodySymbol::Pause);
        } else {
            proof {
                assert(['s', 'i', 'l']@ =~= seq!['s', 'i', 'l']);
                assert(['p', 'a', 'u']@ =~= seq!['p', 'a', 'u']);
            }
            if i + 1 >= n {
                return Err(Sbv2CoreError::InternalConsistency("phone label at the end of the stream".to_owned()));
            }
            let next = &labels[i + 1];
            let a1 = position_or_default(label.mora, 0);
            let a2 = position_or_default(label.mora, 1);
            let a3 = position_or_default(label.mora, 2);
            let f1: i64 = match label.accent_phrase_mora_count {
                Some(c) => c as i64,
                None => -50,
            };
            let a2_next = position_or_default(next.mora, 1);
            let vowelish = (pcs.len() == 1 && (pcs[0] == 'a' || pcs[0] == 'e' || pcs[0] == 'i'
                || pcs[0] == 'o' || pcs[0] == 'u' || pcs[0] == 'A' || pcs[0] == 'E' || pcs[0] == 'I'
                || pcs[0] == 'O' || pcs[0] == 'U' || pcs[0] == 'N')) || chars_equal(&pcs, &['c', 'l']);
            proof {
                assert(['c', 'l']@ =~= seq!['c', 'l']);
                assert(vowelish == vowel_like(lowered_ph@));
            }
            phones.push(ProsodySymbol::Phone(lowered_ph));
            if a3 == 1 && a2_next == 1 && vowelish {
                phones.push(ProsodySymbol::AccentBoundary);
            } else if a1 == 0 && a2_next == a2 + 1 && a2 != f1 {
                phones.push(ProsodySymbol::ToneDown);
            } else if a2 == 1 && a2_next == 2 {
                phones.push(ProsodySymbol::ToneUp);
            }
        }
        proof {
            let m = label_marks(labels@, i as int);
            assert(m is Some);
            assert(marks_view(phones@) =~= marks_view(before) + m->0);
        }
        i = i + 1;
    }
    Ok(phones)
}

} // verus!
