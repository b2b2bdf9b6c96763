//! Literal pattern matching: first-occurrence substring search and the
//! declaration-order tie-break over a list of patterns.

use vstd::prelude::*;
use crate::bytes::clone_bytes;

verus! {

/// `pat` occurs in `text` starting at byte offset `i`.
pub open spec fn is_match_at(text: Seq<u8>, pat: Seq<u8>, i: int) -> bool {
    &&& 0 <= i
    &&& i + pat.len() <= text.len()
    &&& text.subrange(i, i + pat.len()) == pat
}

/// `pat` occurs somewhere in `text`.
pub open spec fn contains_pat(text: Seq<u8>, pat: Seq<u8>) -> bool {
    exists|i: int| is_match_at(text, pat, i)
}

/// Check whether `pat` occurs in `text` at offset `i`.
fn match_at(text: &Vec<u8>, pat: &Vec<u8>, i: usize) -> (r: bool)
    requires
        i + pat@.len() <= text@.len(),
    ensures
        r == is_match_at(text@, pat@, i as int),
{
    let tlen = text.len();
    let plen = pat.len();
    let mut j: usize = 0;
    while j < plen
        invariant
            tlen == text@.len(),
            plen == pat@.len(),
            i + plen <= tlen,
            j <= plen,
            forall|k: int| 0 <= k < j ==> text@[i + k] == pat@[k],
        decreases plen - j,
    {
        if text[i + j] != pat[j] {
            proof {
                if is_match_at(text@, pat@, i as int) {
                    assert(text@.subrange(i as int, i + pat@.len())[j as int] == pat@[j as int]);
                }
            }
            return false;
        }
        j += 1;
    }
    proof {
        assert(text@.subrange(i as int, i + pat@.len()) =~= pat@);
    }
    true
}

/// First occurrence of `pat` in `text`, as a byte offset: the least offset
/// at which `pat` occurs, or `None` when it occurs nowhere.
pub fn find_sub(text: &Vec<u8>, pat: &Vec<u8>) -> (r: Option<usize>)
    ensures
        match r {
            Some(i) => is_match_at(text@, pat@, i as int) && forall|j: int|
                0 <= j < i ==> !is_match_at(text@, pat@, j),
            None => !contains_pat(text@, pat@),
        },
{
    let tlen = text.len();
    let plen = pat.len();
    if plen > tlen {
        return None;
    }
    let last: usize = tlen - plen;
    let mut i: usize = 0;
    while i <= last
        invariant
            tlen == text@.len(),
            plen == pat@.len(),
            plen <= tlen,
            last == tlen - plen,
            i <= last,
            forall|j: int| 0 <= j < i ==> !is_match_at(text@, pat@, j),
        decreases last - i,
    {
        if match_at(text, pat, i) {
            return Some(i);
        }
        if i == last {
            proof {
                assert forall|j: int| !is_match_at(text@, pat@, j) by {
                    if 0 <= j < i {
                    } else if j == i {
                    }
                }
            }
            return None;
        }
        i += 1;
    }
    None
}

/// `i` is the first offset at which `pat` occurs in `text`.
pub open spec fn is_first_match_at(text: Seq<u8>, pat: Seq<u8>, i: int) -> bool {
    &&& is_match_at(text, pat, i)
    &&& forall|j: int| 0 <= j < i ==> !is_match_at(text, pat, j)
}

/// The first offset at which `pat` occurs in `text`; meaningful only when
/// `contains_pat(text, pat)` holds.
pub open spec fn first_occurrence(text: Seq<u8>, pat: Seq<u8>) -> int {
    choose|i: int| is_first_match_at(text, pat, i)
}

/// Two first occurrences of the same pattern coincide.
proof fn lemma_first_match_unique(text: Seq<u8>, pat: Seq<u8>, i: int, j: int)
    requires
        is_first_match_at(text, pat, i),
        is_first_match_at(text, pat, j),
    ensures
        i == j,
{
}

/// A first match pins down `first_occurrence`.
proof fn lemma_first_occurrence(text: Seq<u8>, pat: Seq<u8>, i: int)
    requires
        is_first_match_at(text, pat, i),
    ensures
        first_occurrence(text, pat) == i,
{
    let w = choose|k: int| is_first_match_at(text, pat, k);
    lemma_first_match_unique(text, pat, i, w);
}

/// One matching occurrence inside one line of text: the line itself, its
/// 0-based index within the file, and the half-open byte span of the match.
pub struct LineMatch {
    pub line: Vec<u8>,
    pub line_number: usize,
    pub start: usize,
    pub end: usize,
}

impl LineMatch {
    /// Basic shape of a match: its span lies inside its line.
    pub open spec fn wf(&self) -> bool {
        0 <= self.start <= self.end <= self.line@.len()
    }
}

/// The mathematical content of a line match.
#[verifier::ext_equal]
pub struct LineMatchView {
    pub line: Seq<u8>,
    pub line_number: int,
    pub start: int,
    pub end: int,
}

impl DeepView for LineMatch {
    type V = LineMatchView;

    open spec fn deep_view(&self) -> LineMatchView {
        LineMatchView {
            line: self.line@,
            line_number: self.line_number as int,
            start: self.start as int,
            end: self.end as int,
        }
    }
}

/// The span reported for a list of literal patterns against a text: the
/// first pattern in declaration order that occurs anywhere in the text
/// wins, and its span is its first occurrence; patterns that occur nowhere
/// are passed over. Declaration order takes priority over offset order.
pub open spec fn spec_match_pattern(patterns: Seq<Seq<u8>>, text: Seq<u8>) -> Option<(int, int)>
    decreases patterns.len(),
{
    if patterns.len() == 0 {
        None
    } else if contains_pat(text, patterns[0]) {
        Some(
            (
                first_occurrence(text, patterns[0]),
                first_occurrence(text, patterns[0]) + patterns[0].len(),
            ),
        )
    } else {
        spec_match_pattern(patterns.drop_first(), text)
    }
}

/// Declaration order takes priority over position: whenever the first
/// declared pattern occurs anywhere in the text, the reported span is that
/// pattern's first occurrence, no matter where later patterns occur.
pub proof fn lemma_declaration_order_priority(patterns: Seq<Seq<u8>>, text: Seq<u8>)
    requires
        patterns.len() > 0,
        contains_pat(text, patterns[0]),
    ensures
        spec_match_pattern(patterns, text) == Some(
            (
                first_occurrence(text, patterns[0]),
                first_occurrence(text, patterns[0]) + patterns[0].len(),
            ),
        ),
{
}

/// Passing over a leading pattern that occurs nowhere does not change the
/// reported span.
proof fn lemma_match_pattern_skip(patterns: Seq<Seq<u8>>, text: Seq<u8>, i: int)
    requires
        0 <= i <= patterns.len(),
        forall|k: int| 0 <= k < i ==> !contains_pat(text, patterns[k]),
    ensures
        spec_match_pattern(patterns, text) == spec_match_pattern(patterns.skip(i), text),
    decreases i,
{
    if i > 0 {
        lemma_match_pattern_skip(patterns.drop_first(), text, i - 1);
        assert(patterns.drop_first().skip(i - 1) =~= patterns.skip(i));
    } else {
        assert(patterns.skip(0) =~= patterns);
    }
}

/// Search `line` for the patterns in declaration order; report the first
/// pattern that occurs, with its first occurrence as the match span.
pub fn match_pattern(line: &Vec<u8>, line_number: usize, patterns: &Vec<Vec<u8>>) -> (r: Option<
    LineMatch,
>)
    ensures
        match r {
            Some(m) => {
                &&& spec_match_pattern(patterns.deep_view(), line@) == Some(
                    (m.start as int, m.end as int),
                )
                &&& m.line@ == line@
                &&& m.line_number == line_number
                &&& m.wf()
            },
            None => spec_match_pattern(patterns.deep_view(), line@) is None,
        },
{
    let ghost ps = patterns.deep_view();
    let n = patterns.len();
    let mut i: usize = 0;
    while i < n
        invariant
            n == patterns.len(),
            ps == patterns.deep_view(),
            i <= n,
            forall|k: int| 0 <= k < i ==> !contains_pat(line@, ps[k]),
        decreases n - i,
    {
        let pat = &patterns[i];
        proof {
            assert(pat@ == ps[i as int]);
        }
        if let Some(start) = find_sub(line, pat) {
            proof {
                lemma_first_occurrence(line@, ps[i as int], start as int);
                lemma_match_pattern_skip(ps, line@, i as int);
                assert(ps.skip(i as int)[0] == ps[i as int]);
            }
            let plen = pat.len();
            let llen = line.len();
            proof {
                assert(start + plen <= llen);
            }
            let m = LineMatch { line: clone_bytes(line), line_number, start, end: start + plen };
            return Some(m);
        }
        i += 1;
    }
    proof {
        lemma_match_pattern_skip(ps, line@, n as int);
        assert(ps.skip(n as int) =~= Seq::<Seq<u8>>::empty());
    }
    None
}

} // verus!
