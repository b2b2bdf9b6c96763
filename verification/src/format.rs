//! The result formatter: it turns one file's match outcome into a flat
//! list of output segments, each tagged with its semantic role. Rendering
//! (colors, actual printing) is a caller's concern.

use vstd::prelude::*;
use crate::matcher::LineMatchView;
use crate::matcher::LineMatch;
use crate::search::FileResult;
use crate::config::OutputMode;
use crate::bytes::clone_bytes;
use crate::bytes::copy_range;
use crate::bytes::lemma_deep_view_push;

verus! {

/// One piece of output text with its semantic role. A `Newline` ends one
/// output line.
#[derive(PartialEq, Eq, Debug)]
pub enum Segment {
    /// A file path.
    Path(Vec<u8>),
    /// The separator between path, line number and line text.
    Sep,
    /// A 1-based line number.
    LineNum(usize),
    /// Line text outside the matched span.
    Text(Vec<u8>),
    /// The matched span of a line.
    Match(Vec<u8>),
    /// The end of one output line.
    Newline,
}

/// The mathematical content of a segment.
#[verifier::ext_equal]
pub enum SegView {
    Path(Seq<u8>),
    Sep,
    LineNum(int),
    Text(Seq<u8>),
    Match(Seq<u8>),
    Newline,
}

impl DeepView for Segment {
    type V = SegView;

    open spec fn deep_view(&self) -> SegView {
        match self {
            Segment::Path(p) => SegView::Path(p@),
            Segment::Sep => SegView::Sep,
            Segment::LineNum(n) => SegView::LineNum(*n as int),
            Segment::Text(t) => SegView::Text(t@),
            Segment::Match(t) => SegView::Match(t@),
            Segment::Newline => SegView::Newline,
        }
    }
}

/// Whether a path starts with the platform verbatim prefix `\\?\`.
pub open spec fn has_verbatim_prefix(path: Seq<u8>) -> bool {
    path.len() >= 4 && path[0] == 92 && path[1] == 92 && path[2] == 63 && path[3] == 92
}

/// A path with its verbatim prefix, if any, removed: no such prefix may
/// reach the user.
pub open spec fn spec_strip_prefix(path: Seq<u8>) -> Seq<u8> {
    if has_verbatim_prefix(path) {
        path.skip(4)
    } else {
        path
    }
}

/// Remove the platform verbatim prefix from a path, when present.
pub fn strip_verbatim_prefix(path: &Vec<u8>) -> (r: Vec<u8>)
    ensures
        r@ == spec_strip_prefix(path@),
{
    if path.len() >= 4 && path[0] == 92 && path[1] == 92 && path[2] == 63 && path[3] == 92 {
        copy_range(path, 4, path.len())
    } else {
        clone_bytes(path)
    }
}

/// The segments one matching line produces: the stripped path, a
/// separator, with line numbers the 1-based number and another separator,
/// then the line split into text before, inside and after the matched
/// span, and a newline.
pub open spec fn spec_line_segments(path: Seq<u8>, m: LineMatchView, with_num: bool) -> Seq<
    SegView,
> {
    let head = if with_num {
        seq![
            SegView::Path(spec_strip_prefix(path)),
            SegView::Sep,
            SegView::LineNum(m.line_number + 1),
            SegView::Sep,
        ]
    } else {
        seq![SegView::Path(spec_strip_prefix(path)), SegView::Sep]
    };
    head + seq![
        SegView::Text(m.line.subrange(0, m.start)),
        SegView::Match(m.line.subrange(m.start, m.end)),
        SegView::Text(m.line.subrange(m.end, m.line.len() as int)),
        SegView::Newline,
    ]
}

/// The segments a list of matching lines produces, in order.
pub open spec fn spec_format_lines(path: Seq<u8>, ms: Seq<LineMatchView>, with_num: bool) -> Seq<
    SegView,
>
    decreases ms.len(),
{
    if ms.len() == 0 {
        Seq::empty()
    } else {
        spec_format_lines(path, ms.drop_last(), with_num) + spec_line_segments(
            path,
            ms.last(),
            with_num,
        )
    }
}

/// What one file's result renders to under each output mode: path-only
/// modes emit the path once, or nothing; line modes emit one output line
/// per matching line.
pub open spec fn spec_format(path: Seq<u8>, ms: Seq<LineMatchView>, mode: OutputMode) -> Seq<
    SegView,
> {
    match mode {
        OutputMode::PathsWithoutMatch => if ms.len() == 0 {
            seq![SegView::Path(spec_strip_prefix(path)), SegView::Newline]
        } else {
            Seq::empty()
        },
        OutputMode::PathsWithMatch => if ms.len() > 0 {
            seq![SegView::Path(spec_strip_prefix(path)), SegView::Newline]
        } else {
            Seq::empty()
        },
        OutputMode::LineNumbers => spec_format_lines(path, ms, true),
        OutputMode::Default => spec_format_lines(path, ms, false),
    }
}

/// Append the segments of one matching line.
fn emit_line(out: &mut Vec<Segment>, path: &Vec<u8>, m: &LineMatch, with_num: bool)
    requires
        m.wf(),
        m.line_number < usize::MAX,
    ensures
        final(out).deep_view() == old(out).deep_view() + spec_line_segments(
            path@,
            m.deep_view(),
            with_num,
        ),
{
    let ghost base = out.deep_view();
    push_seg(out, Segment::Path(strip_verbatim_prefix(path)));
    push_seg(out, Segment::Sep);
    if with_num {
        push_seg(out, Segment::LineNum(m.line_number + 1));
        push_seg(out, Segment::Sep);
    }
    push_seg(out, Segment::Text(copy_range(&m.line, 0, m.start)));
    push_seg(out, Segment::Match(copy_range(&m.line, m.start, m.end)));
    push_seg(out, Segment::Text(copy_range(&m.line, m.end, m.line.len())));
    push_seg(out, Segment::Newline);
    proof {
        assert(out.deep_view() =~= base + spec_line_segments(path@, m.deep_view(), with_num));
    }
}

/// Append one segment.
fn push_seg(out: &mut Vec<Segment>, s: Segment)
    ensures
        final(out).deep_view() == old(out).deep_view().push(s.deep_view()),
{
    let ghost osnap = *out;
    let ghost ssnap = s;
    out.push(s);
    proof {
        lemma_deep_view_push(osnap, *out, ssnap);
    }
}

/// Render one file's result under an output mode, as role-tagged segments.
pub fn format_result(fr: &FileResult, mode: OutputMode) -> (r: Vec<Segment>)
    requires
        fr.wf(),
    ensures
        r.deep_view() == spec_format(fr.path@, fr.lines.deep_view(), mode),
{
    let mut out: Vec<Segment> = Vec::new();
    proof {
        assert(out.deep_view() =~= Seq::<SegView>::empty());
    }
    match mode {
        OutputMode::PathsWithoutMatch => {
            if fr.lines.len() == 0 {
                push_seg(&mut out, Segment::Path(strip_verbatim_prefix(&fr.path)));
                push_seg(&mut out, Segment::Newline);
                proof {
                    assert(out.deep_view() =~= spec_format(fr.path@, fr.lines.deep_view(), mode));
                }
            }
        },
        OutputMode::PathsWithMatch => {
            if fr.lines.len() > 0 {
                push_seg(&mut out, Segment::Path(strip_verbatim_prefix(&fr.path)));
                push_seg(&mut out, Segment::Newline);
                proof {
                    assert(out.deep_view() =~= spec_format(fr.path@, fr.lines.deep_view(), mode));
                }
            }
        },
        OutputMode::LineNumbers => {
            format_lines_into(&mut out, fr, true);
        },
        OutputMode::Default => {
            format_lines_into(&mut out, fr, false);
        },
    }
    out
}

/// Append one output line per matching line of a file result.
fn format_lines_into(out: &mut Vec<Segment>, fr: &FileResult, with_num: bool)
    requires
        fr.wf(),
        old(out)@.len() == 0,
    ensures
        final(out).deep_view() == spec_format_lines(fr.path@, fr.lines.deep_view(), with_num),
{
    let ghost ms = fr.lines.deep_view();
    let n = fr.lines.len();
    let mut i: usize = 0;
    proof {
        assert(out.deep_view() =~= Seq::<SegView>::empty());
        assert(ms.take(0) =~= Seq::<LineMatchView>::empty());
    }
    while i < n
        invariant
            n == fr.lines@.len(),
            ms == fr.lines.deep_view(),
            fr.wf(),
            i <= n,
            out.deep_view() == spec_format_lines(fr.path@, ms.take(i as int), with_num),
        decreases n - i,
    {
        let m = &fr.lines[i];
        proof {
            assert(m.deep_view() == ms[i as int]);
            assert(ms.take(i + 1).drop_last() =~= ms.take(i as int));
            assert(ms.take(i + 1).last() == ms[i as int]);
        }
        emit_line(out, &fr.path, m, with_num);
        i += 1;
    }
    proof {
        assert(ms.take(n as int) =~= ms);
    }
}

/// How many output lines a list of segments holds.
pub open spec fn spec_newline_count(segs: Seq<SegView>) -> int
    decreases segs.len(),
{
    if segs.len() == 0 {
        0
    } else {
        spec_newline_count(segs.drop_last()) + if segs.last() is Newline {
            1int
        } else {
            0
        }
    }
}

/// Newline counts add over concatenation.
proof fn lemma_newline_count_add(a: Seq<SegView>, b: Seq<SegView>)
    ensures
        spec_newline_count(a + b) == spec_newline_count(a) + spec_newline_count(b),
    decreases b.len(),
{
    if b.len() == 0 {
        assert(a + b =~= a);
    } else {
        lemma_newline_count_add(a, b.drop_last());
        assert((a + b).drop_last() =~= a + b.drop_last());
        assert((a + b).last() == b.last());
    }
}

/// One matching line renders as exactly one output line.
proof fn lemma_line_segments_one_newline(path: Seq<u8>, m: LineMatchView, with_num: bool)
    ensures
        spec_newline_count(spec_line_segments(path, m, with_num)) == 1,
{
    let s = spec_line_segments(path, m, with_num);
    let tail = seq![
        SegView::Text(m.line.subrange(0, m.start)),
        SegView::Match(m.line.subrange(m.start, m.end)),
        SegView::Text(m.line.subrange(m.end, m.line.len() as int)),
        SegView::Newline,
    ];
    let head = if with_num {
        seq![
            SegView::Path(spec_strip_prefix(path)),
            SegView::Sep,
            SegView::LineNum(m.line_number + 1),
            SegView::Sep,
        ]
    } else {
        seq![SegView::Path(spec_strip_prefix(path)), SegView::Sep]
    };
    lemma_newline_count_add(head, tail);
    let t3 = tail.drop_last();
    let t2 = t3.drop_last();
    let t1 = t2.drop_last();
    let t0 = t1.drop_last();
    assert(t0 =~= Seq::<SegView>::empty());
    assert(spec_newline_count(t0) == 0);
    assert(t1.last() == tail[0]);
    assert(spec_newline_count(t1) == 0);
    assert(t2.last() == tail[1]);
    assert(spec_newline_count(t2) == 0);
    assert(t3.last() == tail[2]);
    assert(spec_newline_count(t3) == 0);
    assert(tail.last() == tail[3]);
    assert(spec_newline_count(tail) == 1);
    if with_num {
        let h2 = head.drop_last();
        let h1 = h2.drop_last();
        let h0 = h1.drop_last();
        assert(h0.drop_last() =~= Seq::<SegView>::empty());
        assert(spec_newline_count(h0.drop_last()) == 0);
        assert(h0.last() == head[0]);
        assert(spec_newline_count(h0) == 0);
        assert(h1.last() == head[1]);
        assert(spec_newline_count(h1) == 0);
        assert(h2.last() == head[2]);
        assert(spec_newline_count(h2) == 0);
        assert(head.last() == head[3]);
        assert(spec_newline_count(head) == 0);
    } else {
        let h0 = head.drop_last();
        assert(h0.drop_last() =~= Seq::<SegView>::empty());
        assert(spec_newline_count(h0.drop_last()) == 0);
        assert(h0.last() == head[0]);
        assert(spec_newline_count(h0) == 0);
        assert(head.last() == head[1]);
        assert(spec_newline_count(head) == 0);
    }
}

/// Line modes emit one output line per matching line.
proof fn lemma_format_lines_newlines(path: Seq<u8>, ms: Seq<LineMatchView>, with_num: bool)
    ensures
        spec_newline_count(spec_format_lines(path, ms, with_num)) == ms.len(),
    decreases ms.len(),
{
    if ms.len() > 0 {
        lemma_format_lines_newlines(path, ms.drop_last(), with_num);
        lemma_newline_count_add(
            spec_format_lines(path, ms.drop_last(), with_num),
            spec_line_segments(path, ms.last(), with_num),
        );
        lemma_line_segments_one_newline(path, ms.last(), with_num);
    }
}

/// The output modes are mutually exclusive in what they emit: for one file
/// result, a path-only mode emits at most one output line, the path once,
/// while the two line modes emit exactly one output line per matching
/// line.
pub proof fn lemma_mode_exclusivity(path: Seq<u8>, ms: Seq<LineMatchView>)
    ensures
        spec_newline_count(spec_format(path, ms, OutputMode::PathsWithMatch)) == if ms.len() > 0 {
            1int
        } else {
            0
        },
        spec_newline_count(spec_format(path, ms, OutputMode::PathsWithoutMatch)) == if ms.len()
            == 0 {
            1int
        } else {
            0
        },
        spec_newline_count(spec_format(path, ms, OutputMode::LineNumbers)) == ms.len(),
        spec_newline_count(spec_format(path, ms, OutputMode::Default)) == ms.len(),
{
    let p = seq![SegView::Path(spec_strip_prefix(path)), SegView::Newline];
    let p0 = p.drop_last();
    assert(p0.drop_last() =~= Seq::<SegView>::empty());
    assert(spec_newline_count(p0.drop_last()) == 0);
    assert(p0.last() == p[0]);
    assert(spec_newline_count(p0) == 0);
    assert(p.last() == p[1]);
    assert(spec_newline_count(p) == 1);
    assert(spec_newline_count(Seq::<SegView>::empty()) == 0);
    lemma_format_lines_newlines(path, ms, true);
    lemma_format_lines_newlines(path, ms, false);
}

} // verus!
