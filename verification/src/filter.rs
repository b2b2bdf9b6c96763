//! The tree filter: per directory entry, decide whether the traversal
//! descends into it or yields it.

use vstd::prelude::*;
use crate::config::SearchConfig;
use crate::config::ConfigModel;
use crate::matcher::contains_pat;
use crate::matcher::find_sub;
use crate::matcher::is_match_at;

verus! {

/// One filesystem object met during traversal, reduced to what the filter
/// reads: its canonical absolute path when one could be computed, whether
/// it is a directory, and whether it is the root an individual walk
/// started from. Symbolic-link following is a traversal setting, not a
/// filter input.
pub struct Entry {
    pub canonical: Option<Vec<u8>>,
    pub is_dir: bool,
    pub is_root: bool,
}

/// The mathematical content of an entry.
#[verifier::ext_equal]
pub struct EntryModel {
    pub canonical: Option<Seq<u8>>,
    pub is_dir: bool,
    pub is_root: bool,
}

impl Entry {
    pub open spec fn model(&self) -> EntryModel {
        EntryModel {
            canonical: match self.canonical {
                Some(ref p) => Some(p@),
                None => None,
            },
            is_dir: self.is_dir,
            is_root: self.is_root,
        }
    }
}

/// An entry is excluded when its canonical path is known and contains one
/// of the exclusion substrings. An entry whose path could not be
/// canonicalized is never excluded: the check fails open.
pub open spec fn spec_excluded(canonical: Option<Seq<u8>>, exclude: Seq<Seq<u8>>) -> bool {
    match canonical {
        Some(p) => exists|k: int| 0 <= k < exclude.len() && contains_pat(p, #[trigger] exclude[k]),
        None => false,
    }
}

/// The filter: a directory is rejected when the search is not recursive,
/// except the root an individual walk starts from; any entry is rejected
/// when it is excluded; everything else is admitted.
pub open spec fn spec_admit(e: EntryModel, cfg: ConfigModel) -> bool {
    &&& !(e.is_dir && !cfg.recursive && !e.is_root)
    &&& !spec_excluded(e.canonical, cfg.exclude)
}

/// Decide whether the traversal descends into or yields an entry.
pub fn filter(entry: &Entry, config: &SearchConfig) -> (r: bool)
    ensures
        r == spec_admit(entry.model(), config.model()),
{
    if entry.is_dir && !config.recursive && !entry.is_root {
        return false;
    }
    match &entry.canonical {
        None => true,
        Some(p) => {
            let ghost ex = config.exclude.deep_view();
            let n = config.exclude.len();
            let mut k: usize = 0;
            while k < n
                invariant
                    entry.canonical == Some(*p),
                    n == config.exclude@.len(),
                    ex == config.exclude.deep_view(),
                    k <= n,
                    forall|j: int| 0 <= j < k ==> !contains_pat(p@, #[trigger] ex[j]),
                decreases n - k,
            {
                let pat = &config.exclude[k];
                proof {
                    assert(pat@ == ex[k as int]);
                }
                let hit = find_sub(p, pat);
                if hit.is_some() {
                    proof {
                        assert(is_match_at(p@, pat@, hit->0 as int));
                        assert(contains_pat(p@, ex[k as int]));
                    }
                    return false;
                }
                k += 1;
            }
            true
        },
    }
}

} // verus!
