use sbv2_core::align::{align_tones, distribute_phone};
use sbv2_core::errors::Sbv2CoreError;
use sbv2_core::kata::{handle_long, kata_to_phoneme_list, long_vowel_run, split_phonemes};
use sbv2_core::mora::{default_mora_file, mora_entries, Mora};
use sbv2_core::prosody::{g2p_prosody, g2phone_tone_wo_punct, AnalyzedLabel, MoraPosition, ProsodySymbol};
use sbv2_core::tone::fix_phone_tone;

fn pt(list: &[(&str, i32)]) -> Vec<(String, i32)> {
    list.iter().map(|(p, t)| (p.to_string(), *t)).collect()
}

fn strings(list: &[&str]) -> Vec<String> {
    list.iter().map(|s| s.to_string()).collect()
}

fn table() -> Vec<Mora> {
    mora_entries(&default_mora_file())
}

#[test]
fn tone_single_zero_is_kept() {
    let r = fix_phone_tone(pt(&[("a", 0), ("i", 0)])).unwrap();
    assert_eq!(r, pt(&[("a", 0), ("i", 0)]));
}

#[test]
fn tone_zero_one_is_kept() {
    let r = fix_phone_tone(pt(&[("k", 0), ("a", 1), ("i", 0)])).unwrap();
    assert_eq!(r, pt(&[("k", 0), ("a", 1), ("i", 0)]));
}

#[test]
fn tone_minus_one_zero_is_lifted() {
    let r = fix_phone_tone(pt(&[("k", -1), ("a", 0), ("i", -1), ("u", 0)])).unwrap();
    assert_eq!(r, pt(&[("k", 0), ("a", 1), ("i", 0), ("u", 1)]));
}

#[test]
fn tone_rejects_other_shapes() {
    for phrase in [
        pt(&[("a", 1)]),
        pt(&[]),
        pt(&[("a", -1), ("i", 0), ("u", 1)]),
        pt(&[("a", 0), ("i", 2)]),
        pt(&[("a", -1)]),
    ] {
        assert!(matches!(fix_phone_tone(phrase), Err(Sbv2CoreError::InvalidToneValues(_))));
    }
}

#[test]
fn distribute_five_over_three() {
    assert_eq!(distribute_phone(5, 3), vec![2, 2, 1]);
}

#[test]
fn distribute_edge_cases() {
    assert_eq!(distribute_phone(0, 0), Vec::<i32>::new());
    assert_eq!(distribute_phone(0, 2), vec![0, 0]);
    assert_eq!(distribute_phone(3, 3), vec![1, 1, 1]);
    assert_eq!(distribute_phone(7, 2), vec![4, 3]);
    let r = distribute_phone(11, 4);
    assert_eq!(r.len(), 4);
    assert_eq!(r.iter().sum::<i32>(), 11);
    assert!(r.iter().max().unwrap() - r.iter().min().unwrap() <= 1);
}

#[test]
fn align_copies_tones_and_zeroes_punctuation() {
    let phones = strings(&["k", "a", ",", "t", "o", "!"]);
    let tones = pt(&[("k", 0), ("a", 1), ("t", 1), ("o", 0)]);
    let r = align_tones(phones, tones).unwrap();
    assert_eq!(r, pt(&[("k", 0), ("a", 1), (",", 0), ("t", 1), ("o", 0), ("!", 0)]));
}

#[test]
fn align_is_stable_on_its_own_output() {
    let phones = strings(&["k", "a", ",", "t", "o"]);
    let first = align_tones(phones.clone(), pt(&[("k", 0), ("a", 1), ("t", 1), ("o", 0)])).unwrap();
    let second = align_tones(phones, first.clone()).unwrap();
    assert_eq!(first, second);
}

#[test]
fn align_reports_mismatch() {
    let r = align_tones(strings(&["k", "i"]), pt(&[("k", 0), ("a", 1)]));
    assert!(matches!(r, Err(Sbv2CoreError::MismatchedPhoneme(ref p)) if p == "i"));
}

#[test]
fn kata_geminate_word() {
    let r = kata_to_phoneme_list(&table(), "キャット".to_string()).unwrap();
    assert_eq!(r, strings(&["ky", "a", "q", "t", "o"]));
}

#[test]
fn kata_punctuation_only() {
    assert_eq!(kata_to_phoneme_list(&table(), "、".to_string()).unwrap(), strings(&["、"]));
    assert_eq!(kata_to_phoneme_list(&table(), "!?".to_string()).unwrap(), strings(&["!", "?"]));
}

#[test]
fn kata_long_vowel() {
    let r = kata_to_phoneme_list(&table(), "カーー".to_string()).unwrap();
    assert_eq!(r, strings(&["k", "a", "a", "a"]));
    let r = kata_to_phoneme_list(&table(), "ーア".to_string()).unwrap();
    assert_eq!(r, strings(&["ー", "a"]));
}

#[test]
fn kata_rejects_non_katakana() {
    let r = kata_to_phoneme_list(&table(), "abc".to_string());
    assert!(matches!(r, Err(Sbv2CoreError::NotKatakana(_))));
}

#[test]
fn long_vowel_run_repeats_character() {
    assert_eq!(long_vowel_run("a", "ーー"), "a a a");
    assert_eq!(long_vowel_run("k", ""), "k");
}

#[test]
fn split_phonemes_drops_empty_words() {
    assert_eq!(split_phonemes(" k a  t"), strings(&["k", "a", "t"]));
}

#[test]
fn handle_long_resolves_segment_start() {
    let segs = vec![strings(&["k", "a"]), strings(&["ー", "n"]), strings(&["N"]), strings(&["ー", "ー"])];
    let r = handle_long(segs);
    assert_eq!(
        r,
        vec![strings(&["k", "a"]), strings(&["a", "n"]), strings(&["N"]), strings(&["N", "N"])]
    );
}

#[test]
fn handle_long_keeps_mark_without_vowel() {
    let r = handle_long(vec![strings(&["ー", "a"]), strings(&["t"]), strings(&["ー"])]);
    assert_eq!(r, vec![strings(&["ー", "a"]), strings(&["t"]), strings(&["ー"])]);
}

#[test]
fn phrase_walk_rises_and_renames_geminate() {
    let syms = vec![
        ProsodySymbol::PhraseStart,
        ProsodySymbol::Phone("a".to_string()),
        ProsodySymbol::ToneUp,
        ProsodySymbol::Phone("cl".to_string()),
        ProsodySymbol::Phone("i".to_string()),
        ProsodySymbol::PhraseEnd { interrogative: false },
    ];
    let r = g2phone_tone_wo_punct(&syms).unwrap();
    assert_eq!(r, pt(&[("a", 0), ("q", 1), ("i", 1)]));
}

#[test]
fn phrase_walk_lifts_downstep() {
    let syms = vec![
        ProsodySymbol::PhraseStart,
        ProsodySymbol::Phone("a".to_string()),
        ProsodySymbol::ToneDown,
        ProsodySymbol::Phone("i".to_string()),
        ProsodySymbol::Pause,
        ProsodySymbol::Phone("u".to_string()),
        ProsodySymbol::PhraseEnd { interrogative: true },
    ];
    let r = g2phone_tone_wo_punct(&syms).unwrap();
    assert_eq!(r, pt(&[("a", 1), ("i", 0), ("u", 0)]));
}

#[test]
fn phrase_walk_rejects_misplaced_start() {
    let syms = vec![ProsodySymbol::Phone("a".to_string()), ProsodySymbol::PhraseStart];
    assert!(matches!(g2phone_tone_wo_punct(&syms), Err(Sbv2CoreError::InternalConsistency(_))));
}

fn label(p: &str, mora: Option<(i32, i32, i32)>, count: Option<i32>, q: Option<bool>) -> AnalyzedLabel {
    AnalyzedLabel {
        phoneme: Some(p.to_string()),
        mora: mora.map(|(a, f, b)| MoraPosition {
            relative_accent_position: a,
            position_forward: f,
            position_backward: b,
        }),
        accent_phrase_mora_count: count,
        prev_phrase_interrogative: q,
    }
}

#[test]
fn prosody_marks_rise_and_boundary() {
    let labels = vec![
        label("sil", None, None, None),
        label("A", Some((1, 1, 2)), Some(2), None),
        label("k", Some((0, 2, 1)), Some(2), None),
        label("a", Some((0, 2, 1)), Some(2), None),
        label("pau", None, None, None),
        label("sil", None, None, Some(true)),
    ];
    let r = g2p_prosody(&labels).unwrap();
    let names: Vec<String> = r
        .iter()
        .map(|s| match s {
            ProsodySymbol::PhraseStart => "^".to_string(),
            ProsodySymbol::PhraseEnd { interrogative: true } => "?".to_string(),
            ProsodySymbol::PhraseEnd { interrogative: false } => "$".to_string(),
            ProsodySymbol::Pause => "_".to_string(),
            ProsodySymbol::AccentBoundary => "#".to_string(),
            ProsodySymbol::ToneUp => "[".to_string(),
            ProsodySymbol::ToneDown => "]".to_string(),
            ProsodySymbol::Phone(p) => p.clone(),
        })
        .collect();
    assert_eq!(names, strings(&["^", "a", "[", "k", "a", "_", "?"]));
}

#[test]
fn prosody_rejects_inner_silence() {
    let labels = vec![
        label("sil", None, None, None),
        label("sil", None, None, None),
        label("a", None, None, None),
        label("sil", None, None, Some(false)),
    ];
    assert!(matches!(g2p_prosody(&labels), Err(Sbv2CoreError::InternalConsistency(_))));
}
