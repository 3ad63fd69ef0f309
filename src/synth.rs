use vstd::prelude::*;

use crate::text::{chars_of, string_of};

verus! {

/// Output sample rate of the vocoder, in samples per second (mono).
pub const SAMPLE_RATE: usize = 44100;

/// One piece of the output waveform.
#[derive(Debug, Clone)]
pub enum Segment {
    /// A line of text, synthesized on its own.
    Speech(String),
    /// This many samples of silence.
    Silence(usize),
}

pub enum SegmentView {
    Speech(Seq<char>),
    Silence(nat),
}

impl View for Segment {
    type V = SegmentView;

    open spec fn view(&self) -> SegmentView {
        match self {
            Segment::Speech(t) => SegmentView::Speech(t@),
            Segment::Silence(n) => SegmentView::Silence(*n as nat),
        }
    }
}

pub open spec fn segments_view(v: Seq<Segment>) -> Seq<SegmentView> {
    v.map_values(|s: Segment| s@)
}

/// The lines of a text from position `i` on, the first continuing `cur`; empty lines kept.
pub open spec fn lines_from(s: Seq<char>, i: int, cur: Seq<char>) -> Seq<Seq<char>>
    decreases s.len() - i,
{
    if i < 0 || i >= s.len() {
        seq![cur]
    } else if s[i] == '\n' {
        seq![cur] + lines_from(s, i + 1, seq![])
    } else {
        lines_from(s, i + 1, cur.push(s[i]))
    }
}

pub open spec fn lines(s: Seq<char>) -> Seq<Seq<char>> {
    lines_from(s, 0, seq![])
}

/// The non-empty lines, in order.
pub open spec fn spoken_lines(ls: Seq<Seq<char>>) -> Seq<Seq<char>>
    decreases ls.len(),
{
    if ls.len() == 0 {
        seq![]
    } else if ls.last().len() == 0 {
        spoken_lines(ls.drop_last())
    } else {
        spoken_lines(ls.drop_last()).push(ls.last())
    }
}

/// The lines as speech segments with one second of silence between consecutive ones.
pub open spec fn with_pauses(ls: Seq<Seq<char>>) -> Seq<SegmentView>
    decreases ls.len(),
{
    if ls.len() == 0 {
        seq![]
    } else if ls.len() == 1 {
        seq![SegmentView::Speech(ls[0])]
    } else {
        with_pauses(ls.drop_last()) + seq![
            SegmentView::Silence(SAMPLE_RATE as nat),
            SegmentView::Speech(ls.last()),
        ]
    }
}

/// The segments to synthesize for a text: with sentence splitting, each non-empty line with
/// a second of silence between consecutive lines; without, the whole text once.
pub open spec fn plan_of(text: Seq<char>, split_sentences: bool) -> Seq<SegmentView> {
    if split_sentences {
        with_pauses(spoken_lines(lines(text)))
    } else {
        seq![SegmentView::Speech(text)]
    }
}

fn split_lines(s: &str) -> (r: Vec<String>)
    ensures
        r@.map_values(|l: String| l@) == lines(s@),
{
    let cs = chars_of(s);
    let mut out: Vec<String> = Vec::new();
    let mut cur: Vec<char> = Vec::new();
    let mut i: usize = 0;
    while i < cs.len()
        invariant
            cs@ == s@,
            i <= cs@.len(),
            out@.map_values(|l: String| l@) + lines_from(cs@, i as int, cur@) == lines(s@),
        decreases cs@.len() - i,
    {
        let ghost before = out@.map_values(|l: String| l@);
        if cs[i] == '\n' {
            let ghost c0 = cur@;
            out.push(string_of(cur.as_slice()));
            cur = Vec::new();
            proof {
                assert(out@.map_values(|l: String| l@) =~= before + seq![c0]);
                assert(cur@ =~= seq![]);
            }
        } else {
            cur.push(cs[i]);
        }
        i = i + 1;
    }
    let ghost before = out@.map_values(|l: String| l@);
    let ghost c0 = cur@;
    out.push(string_of(cur.as_slice()));
    proof {
        assert(out@.map_values(|l: String| l@) =~= before + seq![c0]);
    }
    out
}

/// Lays out the synthesis of a text as speech and silence segments.
pub fn segment_plan(text: &str, split_sentences: bool) -> (r: Vec<Segment>)
    ensures
        segments_view(r@) == plan_of(text@, split_sentences),
{
    let mut out: Vec<Segment> = Vec::new();
    if !split_sentences {
        out.push(Segment::Speech(text.to_owned()));
        proof {
            assert(segments_view(out@) =~= plan_of(text@, split_sentences));
        }
        return out;
    }
    let ls = split_lines(text);
    let ghost lv = ls@.map_values(|l: String| l@);
    let mut i: usize = 0;
    while i < ls.len()
        invariant
            lv == ls@.map_values(|l: String| l@),
            i <= ls@.len(),
            segments_view(out@) == with_pauses(spoken_lines(lv.subrange(0, i as int))),
            (out@.len() == 0) == (spoken_lines(lv.subrange(0, i as int)).len() == 0),
        decreases ls@.len() - i,
    {
        proof {
            assert(lv.subrange(0, i + 1).drop_last() =~= lv.subrange(0, i as int));
        }
        let line_len = chars_of(ls[i].as_str()).len();
        if line_len > 0 {
            let ghost before = segments_view(out@);
            let ghost sp = spoken_lines(lv.subrange(0, i as int));
            if out.len() > 0 {
                out.push(Segment::Silence(SAMPLE_RATE));
            }
            out.push(Segment::Speech(ls[i].clone()));
            proof {
                let sp1 = spoken_lines(lv.subrange(0, i + 1));
                assert(sp1 == sp.push(lv[i as int]));
                assert(sp1.drop_last() =~= sp);
                if sp.len() == 0 {
                    assert(segments_view(out@) =~= with_pauses(sp1));
                } else {
                    assert(segments_view(out@) =~= before + seq![
                        SegmentView::Silence(SAMPLE_RATE as nat),
                        SegmentView::Speech(lv[i as int]),
                    ]);
                }
            }
        }
        i = i + 1;
    }
    proof {
        assert(lv.subrange(0, i as int) =~= lv);
    }
    out
}

proof fn lemma_lines_run(s: Seq<char>, i: int, j: int, cur: Seq<char>)
    requires
        0 <= i <= j <= s.len(),
        forall|k: int| i <= k < j ==> s[k] != '\n',
    ensures
        lines_from(s, i, cur) == lines_from(s, j, cur + s.subrange(i, j)),
    decreases j - i,
{
    if i == j {
        assert(cur + s.subrange(i, j) =~= cur);
    } else {
        lemma_lines_run(s, i + 1, j, cur.push(s[i]));
        assert(cur.push(s[i]) + s.subrange(i + 1, j) =~= cur + s.subrange(i, j));
    }
}

/// Two non-empty lines are synthesized as the first line, one second of silence, and the
/// second line.
pub proof fn lemma_two_lines_plan(a: Seq<char>, b: Seq<char>)
    requires
        a.len() > 0,
        b.len() > 0,
        forall|k: int| 0 <= k < a.len() ==> a[k] != '\n',
        forall|k: int| 0 <= k < b.len() ==> b[k] != '\n',
    ensures
        plan_of(a + seq!['\n'] + b, true) == seq![
            SegmentView::Speech(a),
            SegmentView::Silence(SAMPLE_RATE as nat),
            SegmentView::Speech(b),
        ],
{
    let s = a + seq!['\n'] + b;
    let n = a.len() as int;
    assert forall|k: int| 0 <= k < n implies s[k] != '\n' by {
        assert(s[k] == a[k]);
    }
    lemma_lines_run(s, 0, n, seq![]);
    assert(seq![] + s.subrange(0, n) =~= a);
    assert(s[n] == '\n');
    assert forall|k: int| n + 1 <= k < s.len() implies s[k] != '\n' by {
        assert(s[k] == b[k - n - 1]);
    }
    lemma_lines_run(s, n + 1, s.len() as int, seq![]);
    assert(seq![] + s.subrange(n + 1, s.len() as int) =~= b);
    assert(lines_from(s, s.len() as int, b) == seq![b]);
    assert(lines(s) =~= seq![a, b]);
    let ls = seq![a, b];
    assert(ls.drop_last() =~= seq![a]);
    assert(seq![a].drop_last() =~= Seq::<Seq<char>>::empty());
    assert(spoken_lines(Seq::<Seq<char>>::empty()) =~= Seq::<Seq<char>>::empty());
    assert(seq![a].last() == a);
    assert(spoken_lines(seq![a]) == spoken_lines(Seq::<Seq<char>>::empty()).push(a));
    assert(spoken_lines(seq![a]) =~= seq![a]);
    assert(spoken_lines(ls) =~= seq![a, b]);
    assert(with_pauses(seq![a]) =~= seq![SegmentView::Speech(a)]);
    assert(with_pauses(seq![a, b]) =~= seq![
        SegmentView::Speech(a),
        SegmentView::Silence(SAMPLE_RATE as nat),
        SegmentView::Speech(b),
    ]);
}

} // verus!
