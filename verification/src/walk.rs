//! The traversal engine over an in-memory tree model: a depth-first,
//! pre-order walk that filters every entry before descending into or
//! yielding it, matches admitted files, and formats their results. A real
//! directory walk feeds the same filter and per-file steps entry by entry;
//! this module states what the whole search produces for a known tree.

use vstd::prelude::*;
use crate::config::SearchConfig;
use crate::config::ConfigModel;
use crate::filter::Entry;
use crate::filter::EntryModel;
use crate::filter::spec_admit;
use crate::filter::spec_excluded;
use crate::filter::filter;
use crate::search::match_file;
use crate::search::match_path;
use crate::search::spec_path_matches;
use crate::search::spec_file_matches;
use crate::lines::spec_lines;
use crate::format::Segment;
use crate::format::SegView;
use crate::format::spec_format;
use crate::format::spec_strip_prefix;
use crate::format::strip_verbatim_prefix;
use crate::format::format_result;
use crate::bytes::clone_bytes;
use crate::bytes::lemma_deep_view_concat;
use crate::bytes::lemma_deep_view_push;

verus! {

/// One node of a filesystem tree, reduced to what the search reads: the
/// canonical absolute path when one could be computed, and for a file its
/// content when it could be read and decoded as text. A `None` stands for
/// the failure that the search skips silently.
pub enum FsNode {
    File { canonical: Option<Vec<u8>>, content: Option<Vec<u8>> },
    Dir { canonical: Option<Vec<u8>>, children: Vec<FsNode> },
}

/// The view of an optional byte string.
pub open spec fn view_opt(v: Option<Vec<u8>>) -> Option<Seq<u8>> {
    match v {
        Some(p) => Some(p@),
        None => None,
    }
}

/// What the tree filter sees of a node.
pub open spec fn spec_node_entry(n: FsNode, is_root: bool) -> EntryModel {
    match n {
        FsNode::File { canonical, .. } => EntryModel {
            canonical: view_opt(canonical),
            is_dir: false,
            is_root,
        },
        FsNode::Dir { canonical, .. } => EntryModel {
            canonical: view_opt(canonical),
            is_dir: true,
            is_root,
        },
    }
}

/// What one node contributes to the output: nothing when the filter
/// rejects it; for an admitted file with a canonical path and readable
/// content, its formatted match result; for an admitted directory, its
/// children's contributions in order. Files whose path cannot be
/// canonicalized or whose content cannot be read contribute nothing.
pub open spec fn spec_search_node(n: FsNode, cfg: ConfigModel, is_root: bool) -> Seq<SegView>
    decreases n,
{
    if !spec_admit(spec_node_entry(n, is_root), cfg) {
        Seq::empty()
    } else {
        match n {
            FsNode::File { canonical, content } => match (canonical, content) {
                (Some(p), Some(c)) => spec_format(
                    p@,
                    spec_file_matches(cfg, spec_lines(c@)),
                    cfg.output_mode,
                ),
                _ => Seq::empty(),
            },
            FsNode::Dir { children, .. } => spec_search_nodes(children@, cfg),
        }
    }
}

/// The contributions of a list of sibling nodes, in order.
pub open spec fn spec_search_nodes(ns: Seq<FsNode>, cfg: ConfigModel) -> Seq<SegView>
    decreases ns,
{
    if ns.len() == 0 {
        Seq::empty()
    } else {
        spec_search_node(ns[0], cfg, false) + spec_search_nodes(ns.drop_first(), cfg)
    }
}

/// A whole search: a fresh walk starts at each root, in root order, and
/// each root is admitted as the distinguished self entry of its walk.
pub open spec fn spec_search(roots: Seq<FsNode>, cfg: ConfigModel) -> Seq<SegView>
    decreases roots,
{
    if roots.len() == 0 {
        Seq::empty()
    } else {
        spec_search_node(roots[0], cfg, true) + spec_search(roots.drop_first(), cfg)
    }
}

/// Copy an optional byte string.
fn clone_opt_bytes(v: &Option<Vec<u8>>) -> (r: Option<Vec<u8>>)
    ensures
        view_opt(r) == view_opt(*v),
{
    match v {
        Some(p) => Some(clone_bytes(p)),
        None => None,
    }
}

/// The filter's view of one node.
fn node_entry(node: &FsNode, is_root: bool) -> (e: Entry)
    ensures
        e.model() == spec_node_entry(*node, is_root),
{
    match node {
        FsNode::File { canonical, .. } => Entry {
            canonical: clone_opt_bytes(canonical),
            is_dir: false,
            is_root,
        },
        FsNode::Dir { canonical, .. } => Entry {
            canonical: clone_opt_bytes(canonical),
            is_dir: true,
            is_root,
        },
    }
}

/// Search one node of a tree, depth-first and pre-order: the filter
/// decides first, so a rejected directory's children are never visited.
pub fn search_node(node: &FsNode, config: &SearchConfig, is_root: bool) -> (r: Vec<Segment>)
    ensures
        r.deep_view() == spec_search_node(*node, config.model(), is_root),
    decreases *node,
{
    let e = node_entry(node, is_root);
    if !filter(&e, config) {
        let r: Vec<Segment> = Vec::new();
        proof {
            assert(r.deep_view() =~= Seq::<SegView>::empty());
        }
        return r;
    }
    match node {
        FsNode::File { canonical, content } => {
            match (canonical, content) {
                (Some(p), Some(c)) => {
                    let fr = match_file(p, c, config);
                    let out = format_result(&fr, config.output_mode);
                    proof {
                        assert(spec_search_node(*node, config.model(), is_root) == spec_format(
                            p@,
                            spec_file_matches(config.model(), spec_lines(c@)),
                            config.model().output_mode,
                        ));
                    }
                    out
                },
                _ => {
                    let r: Vec<Segment> = Vec::new();
                    proof {
                        assert(r.deep_view() =~= Seq::<SegView>::empty());
                    }
                    r
                },
            }
        },
        FsNode::Dir { children, .. } => {
            let mut out: Vec<Segment> = Vec::new();
            let n = children.len();
            let mut i: usize = 0;
            proof {
                assert(children@.skip(0) =~= children@);
                assert(out.deep_view() =~= Seq::<SegView>::empty());
                assert(out.deep_view() + spec_search_nodes(children@, config.model())
                    =~= spec_search_nodes(children@, config.model()));
            }
            while i < n
                invariant
                    *node matches FsNode::Dir { children: cs, .. } && cs == *children,
                    n == children@.len(),
                    i <= n,
                    spec_search_nodes(children@, config.model()) == out.deep_view()
                        + spec_search_nodes(children@.skip(i as int), config.model()),
                decreases n - i,
            {
                proof {
                    assert(children@.skip(i as int)[0] == children@[i as int]);
                    assert(children@.skip(i as int).drop_first() =~= children@.skip(i + 1));
                    assert(decreases_to!(*node => children@[i as int]));
                }
                let mut sub = search_node(&children[i], config, false);
                let ghost osnap = out;
                let ghost ssnap = sub;
                out.append(&mut sub);
                proof {
                    lemma_deep_view_concat(osnap, ssnap, out);
                    assert(spec_search_nodes(children@, config.model()) == out.deep_view()
                        + spec_search_nodes(children@.skip(i + 1), config.model()));
                }
                i += 1;
            }
            proof {
                assert(children@.skip(n as int) =~= Seq::<FsNode>::empty());
                assert(out.deep_view() + spec_search_nodes(
                    children@.skip(n as int),
                    config.model(),
                ) =~= out.deep_view());
            }
            out
        },
    }
}

/// Search a whole tree: one fresh walk per root, in root order.
pub fn search_tree(roots: &Vec<FsNode>, config: &SearchConfig) -> (r: Vec<Segment>)
    ensures
        r.deep_view() == spec_search(roots@, config.model()),
{
    let mut out: Vec<Segment> = Vec::new();
    let n = roots.len();
    let mut i: usize = 0;
    proof {
        assert(roots@.skip(0) =~= roots@);
        assert(out.deep_view() =~= Seq::<SegView>::empty());
        assert(out.deep_view() + spec_search(roots@, config.model()) =~= spec_search(
            roots@,
            config.model(),
        ));
    }
    while i < n
        invariant
            n == roots@.len(),
            i <= n,
            spec_search(roots@, config.model()) == out.deep_view() + spec_search(
                roots@.skip(i as int),
                config.model(),
            ),
        decreases n - i,
    {
        proof {
            assert(roots@.skip(i as int)[0] == roots@[i as int]);
            assert(roots@.skip(i as int).drop_first() =~= roots@.skip(i + 1));
        }
        let mut sub = search_node(&roots[i], config, true);
        let ghost osnap = out;
        let ghost ssnap = sub;
        out.append(&mut sub);
        proof {
            lemma_deep_view_concat(osnap, ssnap, out);
            assert(spec_search(roots@, config.model()) == out.deep_view() + spec_search(
                roots@.skip(i + 1),
                config.model(),
            ));
        }
        i += 1;
    }
    proof {
        assert(roots@.skip(n as int) =~= Seq::<FsNode>::empty());
        assert(out.deep_view() + spec_search(roots@.skip(n as int), config.model())
            =~= out.deep_view());
    }
    out
}

/// What one node contributes to the filename search: admitted entries,
/// directories included, whose canonical path contains one of the declared
/// patterns print that path once; entries without a canonical path are
/// skipped; an admitted directory's children follow in order.
pub open spec fn spec_find_node(n: FsNode, cfg: ConfigModel, is_root: bool) -> Seq<SegView>
    decreases n,
{
    if !spec_admit(spec_node_entry(n, is_root), cfg) {
        Seq::empty()
    } else {
        let own = match spec_node_entry(n, is_root).canonical {
            Some(p) => if spec_path_matches(p, cfg.patterns) {
                seq![SegView::Path(spec_strip_prefix(p)), SegView::Newline]
            } else {
                Seq::empty()
            },
            None => Seq::empty(),
        };
        match n {
            FsNode::File { .. } => own,
            FsNode::Dir { children, .. } => own + spec_find_nodes(children@, cfg),
        }
    }
}

/// The filename-search contributions of a list of sibling nodes, in order.
pub open spec fn spec_find_nodes(ns: Seq<FsNode>, cfg: ConfigModel) -> Seq<SegView>
    decreases ns,
{
    if ns.len() == 0 {
        Seq::empty()
    } else {
        spec_find_node(ns[0], cfg, false) + spec_find_nodes(ns.drop_first(), cfg)
    }
}

/// A whole filename search, one fresh walk per root, in root order.
pub open spec fn spec_find(roots: Seq<FsNode>, cfg: ConfigModel) -> Seq<SegView>
    decreases roots,
{
    if roots.len() == 0 {
        Seq::empty()
    } else {
        spec_find_node(roots[0], cfg, true) + spec_find(roots.drop_first(), cfg)
    }
}

/// Filename-search one node of a tree, depth-first and pre-order.
pub fn find_node(node: &FsNode, config: &SearchConfig, is_root: bool) -> (r: Vec<Segment>)
    ensures
        r.deep_view() == spec_find_node(*node, config.model(), is_root),
    decreases *node,
{
    let e = node_entry(node, is_root);
    if !filter(&e, config) {
        let r: Vec<Segment> = Vec::new();
        proof {
            assert(r.deep_view() =~= Seq::<SegView>::empty());
        }
        return r;
    }
    let mut out: Vec<Segment> = Vec::new();
    proof {
        assert(out.deep_view() =~= Seq::<SegView>::empty());
    }
    match &e.canonical {
        Some(p) => {
            if match_path(p, &config.patterns) {
                let ghost o0 = out;
                let seg = Segment::Path(strip_verbatim_prefix(p));
                let ghost segsnap = seg;
                out.push(seg);
                proof {
                    lemma_deep_view_push(o0, out, segsnap);
                }
                let ghost o1 = out;
                let ghost nl = Segment::Newline;
                out.push(Segment::Newline);
                proof {
                    lemma_deep_view_push(o1, out, nl);
                    assert(out.deep_view() =~= seq![
                        SegView::Path(spec_strip_prefix(p@)),
                        SegView::Newline,
                    ]);
                }
            }
        },
        None => {},
    }
    match node {
        FsNode::File { .. } => out,
        FsNode::Dir { children, .. } => {
            let ghost own = out.deep_view();
            let n = children.len();
            let mut i: usize = 0;
            proof {
                assert(children@.skip(0) =~= children@);
                assert(own + spec_find_nodes(children@, config.model()) =~= own
                    + spec_find_nodes(children@, config.model()));
            }
            while i < n
                invariant
                    *node matches FsNode::Dir { children: cs, .. } && cs == *children,
                    n == children@.len(),
                    i <= n,
                    own + spec_find_nodes(children@, config.model()) == out.deep_view()
                        + spec_find_nodes(children@.skip(i as int), config.model()),
                decreases n - i,
            {
                proof {
                    assert(children@.skip(i as int)[0] == children@[i as int]);
                    assert(children@.skip(i as int).drop_first() =~= children@.skip(i + 1));
                    assert(decreases_to!(*node => children@[i as int]));
                }
                let mut sub = find_node(&children[i], config, false);
                let ghost osnap = out;
                let ghost ssnap = sub;
                out.append(&mut sub);
                proof {
                    lemma_deep_view_concat(osnap, ssnap, out);
                    assert(own + spec_find_nodes(children@, config.model()) == out.deep_view()
                        + spec_find_nodes(children@.skip(i + 1), config.model()));
                }
                i += 1;
            }
            proof {
                assert(children@.skip(n as int) =~= Seq::<FsNode>::empty());
                assert(out.deep_view() + spec_find_nodes(
                    children@.skip(n as int),
                    config.model(),
                ) =~= out.deep_view());
            }
            out
        },
    }
}

/// Filename-search a whole tree: one fresh walk per root, in root order.
pub fn find_tree(roots: &Vec<FsNode>, config: &SearchConfig) -> (r: Vec<Segment>)
    ensures
        r.deep_view() == spec_find(roots@, config.model()),
{
    let mut out: Vec<Segment> = Vec::new();
    let n = roots.len();
    let mut i: usize = 0;
    proof {
        assert(roots@.skip(0) =~= roots@);
        assert(out.deep_view() =~= Seq::<SegView>::empty());
        assert(out.deep_view() + spec_find(roots@, config.model()) =~= spec_find(
            roots@,
            config.model(),
        ));
    }
    while i < n
        invariant
            n == roots@.len(),
            i <= n,
            spec_find(roots@, config.model()) == out.deep_view() + spec_find(
                roots@.skip(i as int),
                config.model(),
            ),
        decreases n - i,
    {
        proof {
            assert(roots@.skip(i as int)[0] == roots@[i as int]);
            assert(roots@.skip(i as int).drop_first() =~= roots@.skip(i + 1));
        }
        let mut sub = find_node(&roots[i], config, true);
        let ghost osnap = out;
        let ghost ssnap = sub;
        out.append(&mut sub);
        proof {
            lemma_deep_view_concat(osnap, ssnap, out);
            assert(spec_find(roots@, config.model()) == out.deep_view() + spec_find(
                roots@.skip(i + 1),
                config.model(),
            ));
        }
        i += 1;
    }
    proof {
        assert(roots@.skip(n as int) =~= Seq::<FsNode>::empty());
        assert(out.deep_view() + spec_find(roots@.skip(n as int), config.model())
            =~= out.deep_view());
    }
    out
}

/// Recursion gating: when the search is not recursive, a directory below a
/// root is rejected outright, so nothing under it can appear in the
/// output.
pub proof fn lemma_recursion_gating(n: FsNode, cfg: ConfigModel)
    requires
        !cfg.recursive,
        n is Dir,
    ensures
        spec_search_node(n, cfg, false) == Seq::<SegView>::empty(),
{
}

/// Exclusion: a node whose canonical path contains an exclusion substring
/// contributes nothing to the output, whatever the output mode, and its
/// children are never visited.
pub proof fn lemma_exclusion(n: FsNode, cfg: ConfigModel, is_root: bool)
    requires
        spec_excluded(spec_node_entry(n, is_root).canonical, cfg.exclude),
    ensures
        spec_search_node(n, cfg, is_root) == Seq::<SegView>::empty(),
{
}

/// Idempotence: the search is a function of the tree and the
/// configuration alone, so two runs against an unmodified tree produce
/// identical output.
pub proof fn lemma_search_idempotent(
    roots: Seq<FsNode>,
    cfg: ConfigModel,
    r1: Seq<SegView>,
    r2: Seq<SegView>,
)
    requires
        r1 == spec_search(roots, cfg),
        r2 == spec_search(roots, cfg),
    ensures
        r1 == r2,
{
}

} // verus!
