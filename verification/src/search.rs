//! The per-file part of the search orchestrator: match every line of a
//! file's content against the configured patterns, and match a whole path
//! for the filename search.

use vstd::prelude::*;
use crate::matcher::LineMatch;
use crate::matcher::LineMatchView;
use crate::matcher::spec_match_pattern;
use crate::matcher::match_pattern;
use crate::matcher::contains_pat;
use crate::matcher::is_match_at;
use crate::matcher::find_sub;
use crate::rx::spec_match_regex;
use crate::rx::match_regex;
use crate::lines::spec_lines;
use crate::lines::split_lines;
use crate::config::SearchConfig;
use crate::config::ConfigModel;
use crate::bytes::clone_bytes;
use crate::bytes::lemma_deep_view_push;

verus! {

/// The span one line gets under a configuration: from the regex patterns
/// when the regex flag is set, from the literal patterns otherwise.
pub open spec fn spec_line_span(cfg: ConfigModel, line: Seq<u8>) -> Option<(int, int)> {
    if cfg.use_regex {
        match spec_match_regex(cfg.regexes, line) {
            Some(sp) => Some((sp.0 as int, sp.1 as int)),
            None => None,
        }
    } else {
        spec_match_pattern(cfg.patterns, line)
    }
}

/// The matches of a file's lines, in line order: at most one match per
/// line, holding the line, its 0-based index and the match span.
pub open spec fn spec_file_matches(cfg: ConfigModel, lns: Seq<Seq<u8>>) -> Seq<LineMatchView>
    decreases lns.len(),
{
    if lns.len() == 0 {
        Seq::empty()
    } else {
        let prev = spec_file_matches(cfg, lns.drop_last());
        match spec_line_span(cfg, lns.last()) {
            Some(sp) => prev.push(
                LineMatchView {
                    line: lns.last(),
                    line_number: lns.len() - 1,
                    start: sp.0,
                    end: sp.1,
                },
            ),
            None => prev,
        }
    }
}

/// The recorded matches keep line order: there are no more matches than
/// lines, each match holds the line it was found in, and the matches'
/// line numbers are strictly increasing, so at most one match per line is
/// recorded, in insertion order equal to line order.
pub proof fn lemma_matches_in_line_order(cfg: ConfigModel, lns: Seq<Seq<u8>>)
    ensures
        spec_file_matches(cfg, lns).len() <= lns.len(),
        forall|i: int|
            0 <= i < spec_file_matches(cfg, lns).len() ==> {
                let m = #[trigger] spec_file_matches(cfg, lns)[i];
                0 <= m.line_number < lns.len() && m.line == lns[m.line_number]
            },
        forall|i: int, j: int|
            0 <= i < j < spec_file_matches(cfg, lns).len() ==> #[trigger] spec_file_matches(
                cfg,
                lns,
            )[i].line_number < #[trigger] spec_file_matches(cfg, lns)[j].line_number,
    decreases lns.len(),
{
    if lns.len() > 0 {
        lemma_matches_in_line_order(cfg, lns.drop_last());
        let prev = spec_file_matches(cfg, lns.drop_last());
        let s = spec_file_matches(cfg, lns);
        assert forall|k: int|
            0 <= k < prev.len() implies 0 <= prev[k].line_number < lns.len() - 1 && prev[k].line
            == lns[prev[k].line_number] by {
            assert(lns.drop_last()[prev[k].line_number] == lns[prev[k].line_number]);
        }
        match spec_line_span(cfg, lns.last()) {
            Some(sp) => {
                assert(s == prev.push(
                    LineMatchView {
                        line: lns.last(),
                        line_number: lns.len() - 1,
                        start: sp.0,
                        end: sp.1,
                    },
                ));
                assert(s[s.len() - 1].line_number == lns.len() - 1);
                assert(s[s.len() - 1].line == lns[lns.len() - 1]);
                assert(forall|k: int| 0 <= k < prev.len() ==> s[k] == prev[k]);
            },
            None => {
                assert(s == prev);
            },
        }
    }
}

/// One file's aggregated outcome: its path and its matching lines in line
/// order.
pub struct FileResult {
    pub path: Vec<u8>,
    pub lines: Vec<LineMatch>,
}

impl FileResult {
    /// Every recorded match has its span inside its line, and a line
    /// number a 1-based rendering cannot overflow.
    pub open spec fn wf(&self) -> bool {
        forall|k: int|
            0 <= k < self.lines@.len() ==> (#[trigger] self.lines@[k]).wf() && self.lines@[
                k
            ].line_number < usize::MAX
    }
}

/// Match one file's content: split it into lines and record, per line in
/// order, the first match the configured patterns give, if any.
pub fn match_file(path: &Vec<u8>, content: &Vec<u8>, config: &SearchConfig) -> (r: FileResult)
    ensures
        r.path@ == path@,
        r.lines.deep_view() == spec_file_matches(config.model(), spec_lines(content@)),
        r.wf(),
{
    let lns = split_lines(content);
    let ghost lsv = lns.deep_view();
    let mut out: Vec<LineMatch> = Vec::new();
    let n = lns.len();
    let mut i: usize = 0;
    proof {
        assert(lsv.take(0) =~= Seq::<Seq<u8>>::empty());
        assert(out.deep_view() =~= Seq::<LineMatchView>::empty());
    }
    while i < n
        invariant
            n == lns@.len(),
            lsv == lns.deep_view(),
            lsv == spec_lines(content@),
            i <= n,
            out.deep_view() == spec_file_matches(config.model(), lsv.take(i as int)),
            forall|k: int|
                0 <= k < out@.len() ==> (#[trigger] out@[k]).wf() && out@[k].line_number
                    < usize::MAX,
        decreases n - i,
    {
        let line = &lns[i];
        proof {
            assert(line@ == lsv[i as int]);
            assert(lsv.take(i + 1).drop_last() =~= lsv.take(i as int));
            assert(lsv.take(i + 1).last() == lsv[i as int]);
        }
        let m = if config.use_regex {
            match_regex(line, i, &config.regexes)
        } else {
            match_pattern(line, i, &config.patterns)
        };
        match m {
            Some(lm) => {
                proof {
                    assert(spec_line_span(config.model(), line@) == Some(
                        (lm.start as int, lm.end as int),
                    ));
                }
                let ghost osnap = out;
                let ghost lmsnap = lm;
                out.push(lm);
                proof {
                    lemma_deep_view_push(osnap, out, lmsnap);
                    assert(lmsnap.deep_view() =~= (LineMatchView {
                        line: lsv[i as int],
                        line_number: i as int,
                        start: lmsnap.start as int,
                        end: lmsnap.end as int,
                    }));
                    assert(out.deep_view() == spec_file_matches(
                        config.model(),
                        lsv.take(i + 1),
                    ));
                }
            },
            None => {
                proof {
                    assert(spec_line_span(config.model(), line@) is None);
                    assert(out.deep_view() == spec_file_matches(
                        config.model(),
                        lsv.take(i + 1),
                    ));
                }
            },
        }
        i += 1;
    }
    proof {
        assert(lsv.take(n as int) =~= lsv);
    }
    FileResult { path: clone_bytes(path), lines: out }
}

/// Whether any declared pattern is a substring of a path.
pub open spec fn spec_path_matches(path: Seq<u8>, patterns: Seq<Seq<u8>>) -> bool {
    exists|k: int| 0 <= k < patterns.len() && contains_pat(path, #[trigger] patterns[k])
}

/// The filename search's per-entry check: true exactly when some declared
/// pattern is a substring of the canonical path.
pub fn match_path(path: &Vec<u8>, patterns: &Vec<Vec<u8>>) -> (r: bool)
    ensures
        r == spec_path_matches(path@, patterns.deep_view()),
{
    let ghost ps = patterns.deep_view();
    let n = patterns.len();
    let mut k: usize = 0;
    while k < n
        invariant
            n == patterns@.len(),
            ps == patterns.deep_view(),
            k <= n,
            forall|j: int| 0 <= j < k ==> !contains_pat(path@, #[trigger] ps[j]),
        decreases n - k,
    {
        let pat = &patterns[k];
        proof {
            assert(pat@ == ps[k as int]);
        }
        let hit = find_sub(path, pat);
        if hit.is_some() {
            proof {
                assert(is_match_at(path@, pat@, hit->0 as int));
                assert(contains_pat(path@, ps[k as int]));
            }
            return true;
        }
        k += 1;
    }
    false
}

} // verus!
