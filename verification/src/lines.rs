//! Splitting a text buffer into lines: lines end at a line feed, an
//! optional carriage return before the line feed is not part of the line,
//! and a final line ending is optional.

use vstd::prelude::*;
use crate::bytes::copy_range;
use crate::bytes::lemma_deep_view_push;
use crate::bytes::lemma_bytes_deep_view;

verus! {

pub const LF: u8 = 10;

pub const CR: u8 = 13;

/// A line with its trailing carriage return, if any, removed.
pub open spec fn strip_cr(line: Seq<u8>) -> Seq<u8> {
    if line.len() > 0 && line.last() == CR {
        line.drop_last()
    } else {
        line
    }
}

/// Offset of the first line feed in `content`, or its length when it holds
/// none.
pub open spec fn first_nl(content: Seq<u8>) -> int
    decreases content.len(),
{
    if content.len() == 0 {
        0
    } else if content[0] == LF {
        0
    } else {
        1 + first_nl(content.drop_first())
    }
}

/// `first_nl` lies between 0 and the length of its argument.
pub proof fn lemma_first_nl_bounds(content: Seq<u8>)
    ensures
        0 <= first_nl(content) <= content.len(),
    decreases content.len(),
{
    if content.len() > 0 && content[0] != LF {
        lemma_first_nl_bounds(content.drop_first());
    }
}

/// A scan that saw no line feed before `i`, and one (or the end) at `i`,
/// pins `first_nl` down.
proof fn lemma_first_nl(s: Seq<u8>, i: int)
    requires
        0 <= i <= s.len(),
        forall|k: int| 0 <= k < i ==> s[k] != LF,
        i == s.len() || s[i] == LF,
    ensures
        first_nl(s) == i,
    decreases i,
{
    if i > 0 {
        lemma_first_nl(s.drop_first(), i - 1);
    }
}

/// The lines of a text buffer: each line ends before a line feed or at the
/// end of the buffer, loses a trailing carriage return, and an empty buffer
/// has no lines.
pub open spec fn spec_lines(content: Seq<u8>) -> Seq<Seq<u8>>
    decreases content.len(),
    via spec_lines_decreases
{
    if content.len() == 0 {
        Seq::empty()
    } else {
        let i = first_nl(content);
        if i == content.len() {
            seq![strip_cr(content)]
        } else {
            seq![strip_cr(content.subrange(0, i))] + spec_lines(content.skip(i + 1))
        }
    }
}

#[via_fn]
proof fn spec_lines_decreases(content: Seq<u8>) {
    lemma_first_nl_bounds(content);
}

/// Split a text buffer into its lines.
pub fn split_lines(content: &Vec<u8>) -> (r: Vec<Vec<u8>>)
    ensures
        r.deep_view() == spec_lines(content@),
{
    let n = content.len();
    let mut r: Vec<Vec<u8>> = Vec::new();
    let mut start: usize = 0;
    proof {
        assert(content@.skip(0) =~= content@);
        assert(r.deep_view() =~= Seq::<Seq<u8>>::empty());
        assert(Seq::<Seq<u8>>::empty() + spec_lines(content@) =~= spec_lines(content@));
    }
    while start < n
        invariant
            start <= n,
            n == content@.len(),
            spec_lines(content@) == r.deep_view() + spec_lines(content@.skip(start as int)),
        decreases n - start,
    {
        let ghost s0 = start as int;
        let ghost prefix = r.deep_view();
        let ghost rest = content@.skip(start as int);
        let mut j = start;
        while j < n && content[j] != LF
            invariant
                start <= j <= n,
                n == content@.len(),
                forall|k: int| start <= k < j ==> content@[k] != LF,
            decreases n - j,
        {
            j += 1;
        }
        proof {
            assert forall|k: int| 0 <= k < j - start implies rest[k] != LF by {
                assert(rest[k] == content@[start + k]);
            }
            if j < n {
                assert(rest[j - start] == content@[j as int]);
            }
            lemma_first_nl(rest, j - start);
        }
        let end = if j > start && content[j - 1] == CR {
            j - 1
        } else {
            j
        };
        let line = copy_range(content, start, end);
        proof {
            assert(rest.subrange(0, j - start) =~= content@.subrange(start as int, j as int));
            if j == n {
                assert(rest =~= content@.subrange(start as int, j as int));
            }
            if j > start && content@[j - 1] == CR {
                assert(content@.subrange(start as int, j as int).last() == CR);
                assert(content@.subrange(start as int, j as int).drop_last() =~= content@.subrange(
                    start as int,
                    end as int,
                ));
            } else {
                if j > start {
                    assert(content@.subrange(start as int, j as int).last() == content@[j - 1]);
                }
            }
            assert(strip_cr(rest.subrange(0, j - start)) == line@);
        }
        let ghost rsnap = r;
        let ghost lv = line@;
        let ghost lsnap = line;
        r.push(line);
        proof {
            lemma_deep_view_push(rsnap, r, lsnap);
            lemma_bytes_deep_view(lsnap);
            assert(r.deep_view() == prefix.push(lv));
        }
        if j < n {
            start = j + 1;
            proof {
                assert(rest.skip(j - s0 + 1) =~= content@.skip(start as int));
                assert(spec_lines(rest) == seq![lv] + spec_lines(content@.skip(start as int)));
                assert(prefix.push(lv) + spec_lines(content@.skip(start as int)) =~= prefix + (
                seq![lv] + spec_lines(content@.skip(start as int))));
            }
        } else {
            start = n;
            proof {
                assert(spec_lines(rest) == seq![lv]);
                assert(content@.skip(n as int) =~= Seq::<u8>::empty());
                assert(prefix.push(lv) + spec_lines(content@.skip(start as int)) =~= prefix
                    + seq![lv]);
            }
        }
    }
    proof {
        assert(content@.skip(start as int) =~= Seq::<u8>::empty());
        assert(r.deep_view() + spec_lines(content@.skip(start as int)) =~= r.deep_view());
    }
    r
}

} // verus!
