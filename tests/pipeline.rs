use sbv2_core::archive::{read_sbv2file, select_members};
use sbv2_core::errors::Sbv2CoreError;
use sbv2_core::features::{broadcast_rows, intersperse};
use sbv2_core::jtalk::JTalkProcess;
use sbv2_core::mora::{default_mora_file, mora_entries};
use sbv2_core::prosody::{AnalyzedLabel, MoraPosition};
use sbv2_core::symbols::PhoneSymbols;
use sbv2_core::synth::{segment_plan, Segment, SAMPLE_RATE};
use sbv2_core::tts::TtsModelHolder;

fn label(p: &str, mora: Option<(i32, i32, i32)>, q: Option<bool>) -> AnalyzedLabel {
    AnalyzedLabel {
        phoneme: Some(p.to_string()),
        mora: mora.map(|(a, f, b)| MoraPosition {
            relative_accent_position: a,
            position_forward: f,
            position_backward: b,
        }),
        accent_phrase_mora_count: Some(1),
        prev_phrase_interrogative: q,
    }
}

#[test]
fn g2p_single_mora_word() {
    let parsed = vec!["カ,名詞,一般,*,*,*,*,カ,カ,カ,1/1,C1".to_string()];
    let labels = vec![
        label("sil", None, None),
        label("k", Some((1, 1, 1)), None),
        label("a", Some((1, 1, 1)), None),
        label("sil", None, Some(false)),
    ];
    let process = JTalkProcess::new(parsed, labels);
    let (phones, tones, word2ph) = process.g2p(&mora_entries(&default_mora_file())).unwrap();
    assert_eq!(phones, vec!["_", "k", "a", "_"]);
    assert_eq!(tones, vec![0, 0, 0, 0]);
    assert_eq!(word2ph, vec![1, 2, 1]);
}

#[test]
fn text_to_seq_kata_rewrites_comma_reading() {
    let parsed = vec![
        "、,記号,読点,*,*,*,*,、,、,、,0/0,*".to_string(),
        "雨,名詞,一般,*,*,*,*,雨,アメ,ア’メ,1/2,C3".to_string(),
    ];
    let process = JTalkProcess::new(parsed, vec![]);
    let (text, kata) = process.text_to_seq_kata().unwrap();
    assert_eq!(text, vec![",", "雨"]);
    assert_eq!(kata, vec![",", "アメ"]);
}

#[test]
fn text_to_seq_kata_rejects_short_record() {
    let process = JTalkProcess::new(vec!["ア,名詞".to_string()], vec![]);
    assert!(matches!(process.text_to_seq_kata(), Err(Sbv2CoreError::MalformedFeature(_))));
}

#[test]
fn broadcast_rows_doubles_and_adds_boundary() {
    let rows = broadcast_rows(&vec![1, 2, 1], 1).unwrap();
    assert_eq!(rows, vec![0, 0, 0, 1, 1, 1, 1, 2, 2]);
}

#[test]
fn broadcast_row_count_for_one_two_three() {
    let rows = broadcast_rows(&vec![1, 2, 3], 1).unwrap();
    assert_eq!(rows.len(), 2 * (1 + 2 + 3) + 1);
    assert_eq!(rows.len(), 13);
}

#[test]
fn broadcast_rows_checks_length() {
    assert!(matches!(broadcast_rows(&vec![1, 2, 1], 2), Err(Sbv2CoreError::InternalConsistency(_))));
}

#[test]
fn intersperse_puts_item_around() {
    assert_eq!(intersperse(&vec![5, 6], 0), vec![0, 5, 0, 6, 0]);
    assert_eq!(intersperse(&vec![], 0), vec![0]);
}

fn member(name: &str, data: &[u8]) -> (String, Vec<u8>) {
    (name.to_string(), data.to_vec())
}

#[test]
fn select_members_finds_both() {
    let m = vec![member("model.onnx", b"w"), member("x", b"?"), member("style_vectors.json", b"s")];
    let (w, s) = select_members(&m).unwrap();
    assert_eq!(w, b"w".to_vec());
    assert_eq!(s, b"s".to_vec());
}

#[test]
fn select_members_names_missing() {
    let only_model = vec![member("model.onnx", b"w")];
    assert!(matches!(select_members(&only_model),
        Err(Sbv2CoreError::ModelNotFoundError(ref m)) if m == "style_vectors not found"));
    let only_style = vec![member("style_vectors.json", b"s")];
    assert!(matches!(select_members(&only_style),
        Err(Sbv2CoreError::ModelNotFoundError(ref m)) if m == "vits2 not found"));
    assert!(matches!(select_members(&vec![]),
        Err(Sbv2CoreError::ModelNotFoundError(ref m)) if m == "vits2, style_vectors not found"));
}

fn package(members: &[(&str, &[u8])]) -> Vec<u8> {
    let mut builder = tar::Builder::new(Vec::new());
    for (name, data) in members {
        let mut header = tar::Header::new_gnu();
        header.set_size(data.len() as u64);
        header.set_mode(0o644);
        header.set_cksum();
        builder.append_data(&mut header, name, *data).unwrap();
    }
    let tarball = builder.into_inner().unwrap();
    zstd::encode_all(std::io::Cursor::new(tarball), 3).unwrap()
}

#[test]
fn read_sbv2file_unpacks_package() {
    let bytes = package(&[("model.onnx", b"weights"), ("style_vectors.json", b"{}")]);
    let (w, s) = read_sbv2file(&bytes).unwrap();
    assert_eq!(w, b"weights".to_vec());
    assert_eq!(s, b"{}".to_vec());
}

#[test]
fn read_sbv2file_reports_missing_style() {
    let bytes = package(&[("model.onnx", b"weights")]);
    let r = read_sbv2file(&bytes);
    assert!(matches!(r, Err(Sbv2CoreError::ModelNotFoundError(ref m)) if m.contains("style_vectors")));
}

#[test]
fn read_sbv2file_rejects_garbage() {
    assert!(matches!(read_sbv2file(b"not zstd"), Err(Sbv2CoreError::ArchiveError(_))));
}

#[test]
fn bounded_cache_evicts_one_other_model() {
    let mut holder: TtsModelHolder<u32, ()> = TtsModelHolder::new(Some(2));
    assert!(holder.session_wanted());
    assert!(holder.load("a", (), vec![1], Some(1)));
    assert!(holder.load("b", (), vec![2], Some(2)));
    assert_eq!(holder.get_loadedmodel_count(), 2);
    assert!(holder.is_max_models_loaded());
    assert!(!holder.session_wanted());
    assert!(holder.load("c", (), vec![3], None));
    assert_eq!(holder.get_loadedmodel_count(), 2);
    assert!(!holder.load("a", (), vec![9], None));
    let plan = holder.model_session_preparation("c").unwrap();
    assert_eq!(plan, Some(2));
    holder.activate(2, 3);
    assert_eq!(holder.get_loadedmodel_count(), 2);
    assert!(holder.session_at(0).is_none());
    assert_eq!(holder.session_at(1), Some(&2));
    assert_eq!(holder.session_at(2), Some(&3));
    assert_eq!(holder.model_bytes_at(0), &vec![1]);
    assert_eq!(holder.model_session_preparation("b").unwrap(), None);
    assert_eq!(holder.model_idents(), vec!["a", "b", "c"]);
}

#[test]
fn cache_unload_removes_hot_or_cold() {
    let mut holder: TtsModelHolder<u32, ()> = TtsModelHolder::new(Some(1));
    assert!(holder.load("a", (), vec![1], Some(1)));
    assert!(holder.load("b", (), vec![2], None));
    assert!(holder.unload("b"));
    assert!(holder.unload("a"));
    assert!(!holder.unload("a"));
    assert!(holder.model_idents().is_empty());
}

#[test]
fn unbounded_cache_keeps_all_live() {
    let mut holder: TtsModelHolder<u32, ()> = TtsModelHolder::new(None);
    assert!(holder.load("a", (), vec![1], Some(1)));
    assert!(holder.load("b", (), vec![2], Some(2)));
    assert_eq!(holder.get_loadedmodel_count(), 2);
    assert!(!holder.is_max_models_loaded());
    assert_eq!(holder.model_session_preparation("a").unwrap(), None);
    assert!(matches!(holder.model_session_preparation("z"), Err(Sbv2CoreError::ModelNotFoundError(_))));
}

#[test]
fn two_lines_get_one_second_of_silence() {
    let plan = segment_plan("おはよう\nこんにちは", true);
    assert_eq!(plan.len(), 3);
    assert!(matches!(&plan[0], Segment::Speech(t) if t == "おはよう"));
    assert!(matches!(&plan[1], Segment::Silence(n) if *n == SAMPLE_RATE && *n == 44100));
    assert!(matches!(&plan[2], Segment::Speech(t) if t == "こんにちは"));
}

#[test]
fn empty_lines_are_skipped_and_unsplit_text_is_whole() {
    let plan = segment_plan("a\n\nb\n", true);
    assert_eq!(plan.len(), 3);
    let whole = segment_plan("a\nb", false);
    assert_eq!(whole.len(), 1);
    assert!(matches!(&whole[0], Segment::Speech(t) if t == "a\nb"));
}

#[test]
fn comma_reading_of_word_counts_utf8_bytes() {
    let parsed = vec!["あ,記号,読点,*,*,*,*,、,、,、,0/0,*".to_string()];
    let process = JTalkProcess::new(parsed, vec![]);
    let (text, kata) = process.text_to_seq_kata().unwrap();
    assert_eq!(text, vec!["あ"]);
    assert_eq!(kata, vec!["'''"]);
}

#[test]
fn g2p_reports_reading_without_katakana() {
    let parsed = vec!["x,名詞,一般,*,*,*,*,x,x,xyz,0/1,C1".to_string()];
    let labels = vec![
        label("sil", None, None),
        label("a", Some((1, 1, 1)), None),
        label("sil", None, Some(false)),
    ];
    let process = JTalkProcess::new(parsed, labels);
    let r = process.g2p(&mora_entries(&default_mora_file()));
    assert!(matches!(r, Err(Sbv2CoreError::NotKatakana(_))));
}

#[test]
fn preparation_names_unknown_model() {
    let holder: TtsModelHolder<u32, ()> = TtsModelHolder::new(Some(1));
    let r = holder.model_session_preparation("missing");
    assert!(matches!(r, Err(Sbv2CoreError::ModelNotFoundError(ref m)) if m == "missing"));
}

#[test]
fn symbols_map_phonemes_tones_and_language() {
    let symbols = PhoneSymbols {
        symbols: vec!["_".to_string(), "a".to_string(), "k".to_string(), "a".to_string()],
        tone_start: 6,
        language_id: 1,
    };
    let phones = vec!["_".to_string(), "k".to_string(), "a".to_string(), "_".to_string()];
    let (ids, tones, langs) = symbols.cleaned_text_to_sequence(&phones, &vec![0, 0, 1, 0]).unwrap();
    assert_eq!(ids, vec![0, 2, 1, 0]);
    assert_eq!(tones, vec![6, 6, 7, 6]);
    assert_eq!(langs, vec![1, 1, 1, 1]);
    let unknown = symbols.cleaned_text_to_sequence(&vec!["zz".to_string()], &vec![0]);
    assert!(matches!(unknown, Err(Sbv2CoreError::UnknownPhoneme(ref p)) if p == "zz"));
}
