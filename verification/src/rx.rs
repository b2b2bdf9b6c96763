//! Regular-expression matching through the `regex` crate: one pattern is
//! compiled and searched per call, and a list of patterns is tried in
//! declaration order, passing over patterns that do not compile.

use vstd::prelude::*;
use crate::matcher::LineMatch;
use crate::bytes::clone_bytes;

verus! {

/// Outcome of compiling one pattern and searching one text for its first
/// match.
pub enum RegexOutcome {
    /// The pattern bytes are not valid UTF-8 or not a valid regular
    /// expression.
    CompileError,
    /// The pattern compiled but matches nowhere in the text.
    NoMatch,
    /// The first match covers the given half-open byte range of the text.
    Found(usize, usize),
}

/// Whether a pattern, given as bytes, is valid UTF-8 and compiles as a
/// regular expression; names the outcome of `regex::Regex::new`, which
/// depends on the pattern alone.
pub uninterp spec fn regex_compiles(pat: Seq<u8>) -> bool;

/// The first match that the compiled form of `pat` finds in `text`, as a
/// half-open byte range; names the outcome of `regex::Regex::find`, which
/// depends on the pattern and the text alone. A text that is not valid
/// UTF-8 has no match.
pub uninterp spec fn regex_first_match(pat: Seq<u8>, text: Seq<u8>) -> Option<(usize, usize)>;

/// Relies on `str::from_utf8`, `regex::Regex::new` and `regex::Regex::find`,
/// called in that order: decoding and compiling depend on the pattern bytes
/// alone, the first match found depends on the pattern and haystack bytes
/// alone, and a match's `start()` and `end()` are byte offsets with
/// `start <= end <= haystack.len()` that the crate documents as always safe
/// for slicing the haystack.
#[verifier::external_body]
fn regex_search(pat: &Vec<u8>, text: &Vec<u8>) -> (r: RegexOutcome)
    ensures
        (r is CompileError) == !regex_compiles(pat@),
        regex_compiles(pat@) ==> match r {
            RegexOutcome::CompileError => false,
            RegexOutcome::NoMatch => regex_first_match(pat@, text@) is None,
            RegexOutcome::Found(s, e) => regex_first_match(pat@, text@) == Some((s, e)) && s <= e
                <= text@.len(),
        },
{
    let Ok(p) = std::str::from_utf8(pat) else { return RegexOutcome::CompileError };
    let Ok(re) = regex::Regex::new(p) else { return RegexOutcome::CompileError };
    let Ok(t) = std::str::from_utf8(text) else { return RegexOutcome::NoMatch };
    match re.find(t) {
        None => RegexOutcome::NoMatch,
        Some(m) => RegexOutcome::Found(m.start(), m.end()),
    }
}

/// The span reported for a list of regex patterns against a text: the first
/// pattern in declaration order whose compiled form matches anywhere wins,
/// with the span its engine reports; patterns that do not compile or match
/// nowhere are passed over.
pub open spec fn spec_match_regex(regexes: Seq<Seq<u8>>, text: Seq<u8>) -> Option<(usize, usize)>
    decreases regexes.len(),
{
    if regexes.len() == 0 {
        None
    } else if regex_compiles(regexes[0]) && regex_first_match(regexes[0], text) is Some {
        regex_first_match(regexes[0], text)
    } else {
        spec_match_regex(regexes.drop_first(), text)
    }
}

/// Passing over leading patterns that do not compile or match nowhere does
/// not change the reported span.
proof fn lemma_match_regex_skip(regexes: Seq<Seq<u8>>, text: Seq<u8>, i: int)
    requires
        0 <= i <= regexes.len(),
        forall|k: int|
            0 <= k < i ==> !(regex_compiles(#[trigger] regexes[k]) && regex_first_match(
                regexes[k],
                text,
            ) is Some),
    ensures
        spec_match_regex(regexes, text) == spec_match_regex(regexes.skip(i), text),
    decreases i,
{
    if i > 0 {
        lemma_match_regex_skip(regexes.drop_first(), text, i - 1);
        assert(regexes.drop_first().skip(i - 1) =~= regexes.skip(i));
    } else {
        assert(regexes.skip(0) =~= regexes);
    }
}

/// Try each regex pattern in declaration order against `line`; the first
/// one that compiles and matches somewhere yields the match. Patterns that
/// fail to compile are skipped, and matching goes on with the rest.
pub fn match_regex(line: &Vec<u8>, line_number: usize, regexes: &Vec<Vec<u8>>) -> (r: Option<
    LineMatch,
>)
    ensures
        match r {
            Some(m) => {
                &&& spec_match_regex(regexes.deep_view(), line@) == Some((m.start, m.end))
                &&& m.line@ == line@
                &&& m.line_number == line_number
                &&& m.wf()
            },
            None => spec_match_regex(regexes.deep_view(), line@) is None,
        },
{
    let ghost rs = regexes.deep_view();
    let n = regexes.len();
    let mut i: usize = 0;
    while i < n
        invariant
            n == regexes.len(),
            rs == regexes.deep_view(),
            i <= n,
            forall|k: int|
                0 <= k < i ==> !(regex_compiles(#[trigger] rs[k]) && regex_first_match(
                    rs[k],
                    line@,
                ) is Some),
        decreases n - i,
    {
        let pat = &regexes[i];
        proof {
            assert(pat@ == rs[i as int]);
        }
        match regex_search(pat, line) {
            RegexOutcome::Found(start, end) => {
                proof {
                    lemma_match_regex_skip(rs, line@, i as int);
                    assert(rs.skip(i as int)[0] == rs[i as int]);
                }
                let m = LineMatch { line: clone_bytes(line), line_number, start, end };
                return Some(m);
            },
            _ => {},
        }
        i += 1;
    }
    proof {
        lemma_match_regex_skip(rs, line@, n as int);
        assert(rs.skip(n as int) =~= Seq::<Seq<u8>>::empty());
    }
    None
}

/// The indices, in order, of the patterns that do not compile as regular
/// expressions; matching passes these over, and a caller may report each
/// one as a non-fatal diagnostic.
pub fn compile_failures(regexes: &Vec<Vec<u8>>) -> (r: Vec<usize>)
    ensures
        forall|k: int|
            0 <= k < r@.len() ==> 0 <= #[trigger] r@[k] < regexes@.len() && !regex_compiles(
                regexes.deep_view()[r@[k] as int],
            ),
        forall|j: int|
            0 <= j < regexes@.len() && !regex_compiles(#[trigger] regexes.deep_view()[j])
                ==> r@.contains(j as usize),
{
    let ghost rs = regexes.deep_view();
    let n = regexes.len();
    let mut r: Vec<usize> = Vec::new();
    let mut i: usize = 0;
    while i < n
        invariant
            n == regexes.len(),
            rs == regexes.deep_view(),
            i <= n,
            forall|k: int|
                0 <= k < r@.len() ==> 0 <= #[trigger] r@[k] < n && !regex_compiles(
                    rs[r@[k] as int],
                ),
            forall|j: int|
                0 <= j < i && !regex_compiles(#[trigger] rs[j]) ==> r@.contains(j as usize),
        decreases n - i,
    {
        let pat = &regexes[i];
        proof {
            assert(pat@ == rs[i as int]);
        }
        let empty: Vec<u8> = Vec::new();
        match regex_search(pat, &empty) {
            RegexOutcome::CompileError => {
                let ghost old_r = r@;
                r.push(i);
                proof {
                    assert(r@ == old_r.push(i as usize));
                    assert forall|j: int|
                        0 <= j < i + 1 && !regex_compiles(#[trigger] rs[j]) implies r@.contains(
                        j as usize,
                    ) by {
                        if j < i {
                            assert(old_r.contains(j as usize));
                            let w = choose|w: int| 0 <= w < old_r.len() && old_r[w] == j as usize;
                            assert(r@[w] == j as usize);
                        } else {
                            assert(r@[r@.len() - 1] == j as usize);
                        }
                    }
                }
            },
            _ => {},
        }
        i += 1;
    }
    r
}

} // verus!
