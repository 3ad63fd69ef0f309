use vstd::prelude::*;

verus! {

/// A katakana mora unit and the phonemes it is pronounced with.
#[derive(Debug, Clone)]
pub struct Mora {
    pub mora: String,
    pub consonant: Option<String>,
    pub vowel: String,
}

/// The mora table in two parts: the units every reading needs and the rarer ones.
#[derive(Debug, Clone)]
pub struct MoraFile {
    pub minimum: Vec<Mora>,
    pub additional: Vec<Mora>,
}

/// The mathematical value of a mora entry: its katakana, consonant and vowel.
pub open spec fn mora_view(m: Mora) -> (Seq<char>, Option<Seq<char>>, Seq<char>) {
    (
        m.mora@,
        match m.consonant {
            Some(c) => Some(c@),
            None => None,
        },
        m.vowel@,
    )
}

pub open spec fn moras_view(v: Seq<Mora>) -> Seq<(Seq<char>, Option<Seq<char>>, Seq<char>)> {
    v.map_values(|m: Mora| mora_view(m))
}

/// The vowels, with the moraic nasal, that a following long-vowel mark can extend.
pub open spec fn is_vowel(p: Seq<char>) -> bool {
    p.len() == 1 && (p[0] == 'a' || p[0] == 'i' || p[0] == 'u' || p[0] == 'e' || p[0] == 'o'
        || p[0] == 'N')
}

fn mora(m: &str, consonant: Option<&str>, vowel: &str) -> (r: Mora)
    ensures
        mora_view(r) == (m@, match consonant {
            Some(c) => Some(c@),
            None => None,
        }, vowel@),
{
    Mora {
        mora: m.to_owned(),
        consonant: match consonant {
            Some(c) => Some(c.to_owned()),
            None => None,
        },
        vowel: vowel.to_owned(),
    }
}

/// The table of every katakana mora with its consonant and vowel: 144 common units and 18
/// rarer ones.
pub fn default_mora_file() -> (r: MoraFile)
    ensures
        r.minimum@.len() == 144,
        r.additional@.len() == 18,
{
    let mut minimum: Vec<Mora> = Vec::new();
    minimum.push(mora("ヴォ", Some("v"), "o"));
    minimum.push(mora("ヴェ", Some("v"), "e"));
    minimum.push(mora("ヴィ", Some("v"), "i"));
    minimum.push(mora("ヴァ", Some("v"), "a"));
    minimum.push(mora("ヴ", Some("v"), "u"));
    minimum.push(mora("ン", None, "N"));
    minimum.push(mora("ワ", Some("w"), "a"));
    minimum.push(mora("ロ", Some("r"), "o"));
    minimum.push(mora("レ", Some("r"), "e"));
    minimum.push(mora("ル", Some("r"), "u"));
    minimum.push(mora("リョ", Some("ry"), "o"));
    minimum.push(mora("リュ", Some("ry"), "u"));
    assert(minimum@.len() == 12);
    minimum.push(mora("リャ", Some("ry"), "a"));
    minimum.push(mora("リェ", Some("ry"), "e"));
    minimum.push(mora("リ", Some("r"), "i"));
    minimum.push(mora("ラ", Some("r"), "a"));
    minimum.push(mora("ヨ", Some("y"), "o"));
    minimum.push(mora("ユ", Some("y"), "u"));
    minimum.push(mora("ヤ", Some("y"), "a"));
    minimum.push(mora("モ", Some("m"), "o"));
    minimum.push(mora("メ", Some("m"), "e"));
    minimum.push(mora("ム", Some("m"), "u"));
    minimum.push(mora("ミョ", Some("my"), "o"));
    minimum.push(mora("ミュ", Some("my"), "u"));
    assert(minimum@.len() == 24);
    minimum.push(mora("ミャ", Some("my"), "a"));
    minimum.push(mora("ミェ", Some("my"), "e"));
    minimum.push(mora("ミ", Some("m"), "i"));
    minimum.push(mora("マ", Some("m"), "a"));
    minimum.push(mora("ポ", Some("p"), "o"));
    minimum.push(mora("ボ", Some("b"), "o"));
    minimum.push(mora("ホ", Some("h"), "o"));
    minimum.push(mora("ペ", Some("p"), "e"));
    minimum.push(mora("ベ", Some("b"), "e"));
    minimum.push(mora("ヘ", Some("h"), "e"));
    minimum.push(mora("プ", Some("p"), "u"));
    minimum.push(mora("ブ", Some("b"), "u"));
    assert(minimum@.len() == 36);
    minimum.push(mora("フォ", Some("f"), "o"));
    minimum.push(mora("フェ", Some("f"), "e"));
    minimum.push(mora("フィ", Some("f"), "i"));
    minimum.push(mora("ファ", Some("f"), "a"));
    minimum.push(mora("フ", Some("f"), "u"));
    minimum.push(mora("ピョ", Some("py"), "o"));
    minimum.push(mora("ピュ", Some("py"), "u"));
    minimum.push(mora("ピャ", Some("py"), "a"));
    minimum.push(mora("ピェ", Some("py"), "e"));
    minimum.push(mora("ピ", Some("p"), "i"));
    minimum.push(mora("ビョ", Some("by"), "o"));
    minimum.push(mora("ビュ", Some("by"), "u"));
    assert(minimum@.len() == 48);
    minimum.push(mora("ビャ", Some("by"), "a"));
    minimum.push(mora("ビェ", Some("by"), "e"));
    minimum.push(mora("ビ", Some("b"), "i"));
    minimum.push(mora("ヒョ", Some("hy"), "o"));
    minimum.push(mora("ヒュ", Some("hy"), "u"));
    minimum.push(mora("ヒャ", Some("hy"), "a"));
    minimum.push(mora("ヒェ", Some("hy"), "e"));
    minimum.push(mora("ヒ", Some("h"), "i"));
    minimum.push(mora("パ", Some("p"), "a"));
    minimum.push(mora("バ", Some("b"), "a"));
    minimum.push(mora("ハ", Some("h"), "a"));
    minimum.push(mora("ノ", Some("n"), "o"));
    assert(minimum@.len() == 60);
    minimum.push(mora("ネ", Some("n"), "e"));
    minimum.push(mora("ヌ", Some("n"), "u"));
    minimum.push(mora("ニョ", Some("ny"), "o"));
    minimum.push(mora("ニュ", Some("ny"), "u"));
    minimum.push(mora("ニャ", Some("ny"), "a"));
    minimum.push(mora("ニェ", Some("ny"), "e"));
    minimum.push(mora("ニ", Some("n"), "i"));
    minimum.push(mora("ナ", Some("n"), "a"));
    minimum.push(mora("ドゥ", Some("d"), "u"));
    minimum.push(mora("ド", Some("d"), "o"));
    minimum.push(mora("トゥ", Some("t"), "u"));
    minimum.push(mora("ト", Some("t"), "o"));
    assert(minimum@.len() == 72);
    minimum.push(mora("デョ", Some("dy"), "o"));
    minimum.push(mora("デュ", Some("dy"), "u"));
    minimum.push(mora("デャ", Some("dy"), "a"));
    minimum.push(mora("ディ", Some("d"), "i"));
    minimum.push(mora("デ", Some("d"), "e"));
    minimum.push(mora("テョ", Some("ty"), "o"));
    minimum.push(mora("テュ", Some("ty"), "u"));
    minimum.push(mora("テャ", Some("ty"), "a"));
    minimum.push(mora("ティ", Some("t"), "i"));
    minimum.push(mora("テ", Some("t"), "e"));
    minimum.push(mora("ツォ", Some("ts"), "o"));
    minimum.push(mora("ツェ", Some("ts"), "e"));
    assert(minimum@.len() == 84);
    minimum.push(mora("ツィ", Some("ts"), "i"));
    minimum.push(mora("ツァ", Some("ts"), "a"));
    minimum.push(mora("ツ", Some("ts"), "u"));
    minimum.push(mora("ッ", None, "q"));
    minimum.push(mora("チョ", Some("ch"), "o"));
    minimum.push(mora("チュ", Some("ch"), "u"));
    minimum.push(mora("チャ", Some("ch"), "a"));
    minimum.push(mora("チェ", Some("ch"), "e"));
    minimum.push(mora("チ", Some("ch"), "i"));
    minimum.push(mora("ダ", Some("d"), "a"));
    minimum.push(mora("タ", Some("t"), "a"));
    minimum.push(mora("ゾ", Some("z"), "o"));
    assert(minimum@.len() == 96);
    minimum.push(mora("ソ", Some("s"), "o"));
    minimum.push(mora("ゼ", Some("z"), "e"));
    minimum.push(mora("セ", Some("s"), "e"));
    minimum.push(mora("ズィ", Some("z"), "i"));
    minimum.push(mora("ズ", Some("z"), "u"));
    minimum.push(mora("スィ", Some("s"), "i"));
    minimum.push(mora("ス", Some("s"), "u"));
    minimum.push(mora("ジョ", Some("j"), "o"));
    minimum.push(mora("ジュ", Some("j"), "u"));
    minimum.push(mora("ジャ", Some("j"), "a"));
    minimum.push(mora("ジェ", Some("j"), "e"));
    minimum.push(mora("ジ", Some("j"), "i"));
    assert(minimum@.len() == 108);
    minimum.push(mora("ショ", Some("sh"), "o"));
    minimum.push(mora("シュ", Some("sh"), "u"));
    minimum.push(mora("シャ", Some("sh"), "a"));
    minimum.push(mora("シェ", Some("sh"), "e"));
    minimum.push(mora("シ", Some("sh"), "i"));
    minimum.push(mora("ザ", Some("z"), "a"));
    minimum.push(mora("サ", Some("s"), "a"));
    minimum.push(mora("ゴ", Some("g"), "o"));
    minimum.push(mora("コ", Some("k"), "o"));
    minimum.push(mora("ゲ", Some("g"), "e"));
    minimum.push(mora("ケ", Some("k"), "e"));
    minimum.push(mora("グヮ", Some("gw"), "a"));
    assert(minimum@.len() == 120);
    minimum.push(mora("グ", Some("g"), "u"));
    minimum.push(mora("クヮ", Some("kw"), "a"));
    minimum.push(mora("ク", Some("k"), "u"));
    minimum.push(mora("ギョ", Some("gy"), "o"));
    minimum.push(mora("ギュ", Some("gy"), "u"));
    minimum.push(mora("ギャ", Some("gy"), "a"));
    minimum.push(mora("ギェ", Some("gy"), "e"));
    minimum.push(mora("ギ", Some("g"), "i"));
    minimum.push(mora("キョ", Some("ky"), "o"));
    minimum.push(mora("キュ", Some("ky"), "u"));
    minimum.push(mora("キャ", Some("ky"), "a"));
    minimum.push(mora("キェ", Some("ky"), "e"));
    assert(minimum@.len() == 132);
    minimum.push(mora("キ", Some("k"), "i"));
    minimum.push(mora("ガ", Some("g"), "a"));
    minimum.push(mora("カ", Some("k"), "a"));
    minimum.push(mora("オ", None, "o"));
    minimum.push(mora("エ", None, "e"));
    minimum.push(mora("ウォ", Some("w"), "o"));
    minimum.push(mora("ウェ", Some("w"), "e"));
    minimum.push(mora("ウィ", Some("w"), "i"));
    minimum.push(mora("ウ", None, "u"));
    minimum.push(mora("イェ", Some("y"), "e"));
    minimum.push(mora("イ", None, "i"));
    minimum.push(mora("ア", None, "a"));
    assert(minimum@.len() == 144);
    let mut additional: Vec<Mora> = Vec::new();
    additional.push(mora("ヴョ", Some("by"), "o"));
    additional.push(mora("ヴュ", Some("by"), "u"));
    additional.push(mora("ヴャ", Some("by"), "a"));
    additional.push(mora("ヲ", None, "o"));
    additional.push(mora("ヱ", None, "e"));
    additional.push(mora("ヰ", None, "i"));
    additional.push(mora("ヮ", Some("w"), "a"));
    additional.push(mora("ョ", Some("y"), "o"));
    additional.push(mora("ュ", Some("y"), "u"));
    additional.push(mora("ヅ", Some("z"), "u"));
    additional.push(mora("ヂ", Some("j"), "i"));
    additional.push(mora("ヶ", Some("k"), "e"));
    additional.push(mora("ャ", Some("y"), "a"));
    additional.push(mora("ォ", None, "o"));
    additional.push(mora("ェ", None, "e"));
    additional.push(mora("ゥ", None, "u"));
    additional.push(mora("ィ", None, "i"));
    additional.push(mora("ァ", None, "a"));
    MoraFile { minimum, additional }
}

/// All entries of a mora file, the common units first.
pub fn mora_entries(file: &MoraFile) -> (r: Vec<Mora>)
    ensures
        moras_view(r@) == moras_view(file.minimum@) + moras_view(file.additional@),
{
    let ghost all = file.minimum@ + file.additional@;
    let mut out: Vec<Mora> = Vec::new();
    let mut i: usize = 0;
    while i < file.minimum.len()
        invariant
            all == file.minimum@ + file.additional@,
            i <= file.minimum@.len(),
            out@.len() == i,
            forall|k: int| 0 <= k < i ==> mora_view(#[trigger] out@[k]) == mora_view(all[k]),
        decreases file.minimum@.len() - i,
    {
        let m = copy_mora(&file.minimum[i]);
        out.push(m);
        i = i + 1;
    }
    let mut j: usize = 0;
    while j < file.additional.len()
        invariant
            all == file.minimum@ + file.additional@,
            i == file.minimum@.len(),
            j <= file.additional@.len(),
            out@.len() == i + j,
            forall|k: int| 0 <= k < i + j ==> mora_view(#[trigger] out@[k]) == mora_view(all[k]),
        decreases file.additional@.len() - j,
    {
        let m = copy_mora(&file.additional[j]);
        out.push(m);
        j = j + 1;
    }
    assert(moras_view(out@) =~= moras_view(file.minimum@) + moras_view(file.additional@));
    out
}

fn copy_mora(m: &Mora) -> (r: Mora)
    ensures
        mora_view(r) == mora_view(*m),
{
    Mora {
        mora: m.mora.clone(),
        consonant: match &m.consonant {
            Some(c) => Some(c.clone()),
            None => None,
        },
        vowel: m.vowel.clone(),
    }
}

} // verus!
