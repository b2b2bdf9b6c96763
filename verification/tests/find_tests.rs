use rsgrep::config::{OutputMode, SearchConfig};
use rsgrep::format::Segment;
use rsgrep::walk::{find_tree, FsNode};

fn b(s: &str) -> Vec<u8> {
    s.as_bytes().to_vec()
}

fn config(patterns: &[&str], recursive: bool) -> SearchConfig {
    SearchConfig {
        recursive,
        follow_symlinks: false,
        exclude: vec![],
        patterns: patterns.iter().map(|p| b(p)).collect(),
        regexes: vec![],
        use_regex: false,
        output_mode: OutputMode::Default,
    }
}

fn file(path: &str) -> FsNode {
    FsNode::File { canonical: Some(b(path)), content: None }
}

fn dir(path: &str, children: Vec<FsNode>) -> FsNode {
    FsNode::Dir { canonical: Some(b(path)), children }
}

#[test]
fn filename_search_prints_each_matching_path_once() {
    let tree = vec![dir(
        "/r",
        vec![file("/r/notes.txt"), file("/r/todo.md"), dir("/r/notes.d", vec![])],
    )];
    let cfg = config(&["notes"], true);
    let segs = find_tree(&tree, &cfg);
    assert_eq!(
        segs,
        vec![
            Segment::Path(b("/r/notes.txt")),
            Segment::Newline,
            Segment::Path(b("/r/notes.d")),
            Segment::Newline,
        ]
    );
}

#[test]
fn filename_search_matches_directories_too() {
    let tree = vec![dir("/r/util", vec![file("/r/util/a.rs")])];
    let cfg = config(&["util"], true);
    let segs = find_tree(&tree, &cfg);
    assert_eq!(
        segs,
        vec![
            Segment::Path(b("/r/util")),
            Segment::Newline,
            Segment::Path(b("/r/util/a.rs")),
            Segment::Newline,
        ]
    );
}

#[test]
fn filename_search_respects_recursion_gating() {
    let tree = vec![dir("/r", vec![dir("/r/sub", vec![file("/r/sub/x.txt")])])];
    let cfg = config(&["x.txt"], false);
    assert_eq!(find_tree(&tree, &cfg), Vec::<Segment>::new());
    let cfg = config(&["x.txt"], true);
    assert_eq!(
        find_tree(&tree, &cfg),
        vec![Segment::Path(b("/r/sub/x.txt")), Segment::Newline]
    );
}

#[test]
fn filename_search_respects_exclusion() {
    let tree = vec![dir(
        "/r",
        vec![dir("/r/secret", vec![file("/r/secret/x.txt")]), file("/r/x.txt")],
    )];
    let mut cfg = config(&["x.txt"], true);
    cfg.exclude = vec![b("secret")];
    assert_eq!(
        find_tree(&tree, &cfg),
        vec![Segment::Path(b("/r/x.txt")), Segment::Newline]
    );
}
