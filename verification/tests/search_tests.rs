use rsgrep::config::{OutputMode, SearchConfig};
use rsgrep::format::{format_result, Segment};
use rsgrep::search::match_file;
use rsgrep::walk::{search_tree, FsNode};

fn b(s: &str) -> Vec<u8> {
    s.as_bytes().to_vec()
}

fn config(patterns: &[&str], recursive: bool, mode: OutputMode) -> SearchConfig {
    SearchConfig {
        recursive,
        follow_symlinks: false,
        exclude: vec![],
        patterns: patterns.iter().map(|p| b(p)).collect(),
        regexes: vec![],
        use_regex: false,
        output_mode: mode,
    }
}

fn file(path: &str, content: &str) -> FsNode {
    FsNode::File { canonical: Some(b(path)), content: Some(b(content)) }
}

fn dir(path: &str, children: Vec<FsNode>) -> FsNode {
    FsNode::Dir { canonical: Some(b(path)), children }
}

fn newline_count(segs: &[Segment]) -> usize {
    segs.iter().filter(|s| matches!(s, Segment::Newline)).count()
}

#[test]
fn match_file_records_one_match_per_line() {
    let cfg = config(&["b"], true, OutputMode::Default);
    let fr = match_file(&b("/f"), &b("abc\nxyz\nbab\n"), &cfg);
    assert_eq!(fr.path, b("/f"));
    assert_eq!(fr.lines.len(), 2);
    assert_eq!(fr.lines[0].line, b("abc"));
    assert_eq!(fr.lines[0].line_number, 0);
    assert_eq!((fr.lines[0].start, fr.lines[0].end), (1, 2));
    assert_eq!(fr.lines[1].line, b("bab"));
    assert_eq!(fr.lines[1].line_number, 2);
    assert_eq!((fr.lines[1].start, fr.lines[1].end), (0, 1));
}

#[test]
fn default_mode_segments_exact() {
    let cfg = config(&["foo"], true, OutputMode::Default);
    let fr = match_file(&b("/r/a/x.txt"), &b("foo bar"), &cfg);
    let segs = format_result(&fr, OutputMode::Default);
    assert_eq!(
        segs,
        vec![
            Segment::Path(b("/r/a/x.txt")),
            Segment::Sep,
            Segment::Text(b("")),
            Segment::Match(b("foo")),
            Segment::Text(b(" bar")),
            Segment::Newline,
        ]
    );
}

#[test]
fn line_number_mode_is_one_based() {
    let cfg = config(&["b"], true, OutputMode::LineNumbers);
    let fr = match_file(&b("/f"), &b("a\nb"), &cfg);
    let segs = format_result(&fr, OutputMode::LineNumbers);
    assert_eq!(
        segs,
        vec![
            Segment::Path(b("/f")),
            Segment::Sep,
            Segment::LineNum(2),
            Segment::Sep,
            Segment::Text(b("")),
            Segment::Match(b("b")),
            Segment::Text(b("")),
            Segment::Newline,
        ]
    );
}

#[test]
fn mode_exclusivity_on_two_matching_lines() {
    let cfg = config(&["b"], true, OutputMode::Default);
    let fr = match_file(&b("/f"), &b("ab\ncb"), &cfg);
    assert_eq!(fr.lines.len(), 2);
    let with_match = format_result(&fr, OutputMode::PathsWithMatch);
    assert_eq!(with_match, vec![Segment::Path(b("/f")), Segment::Newline]);
    assert_eq!(newline_count(&with_match), 1);
    let without_match = format_result(&fr, OutputMode::PathsWithoutMatch);
    assert_eq!(without_match, Vec::<Segment>::new());
    assert_eq!(newline_count(&format_result(&fr, OutputMode::Default)), 2);
    assert_eq!(newline_count(&format_result(&fr, OutputMode::LineNumbers)), 2);
}

#[test]
fn paths_without_match_lists_clean_files() {
    let cfg = config(&["zz"], true, OutputMode::PathsWithoutMatch);
    let fr = match_file(&b("/f"), &b("nothing"), &cfg);
    let segs = format_result(&fr, OutputMode::PathsWithoutMatch);
    assert_eq!(segs, vec![Segment::Path(b("/f")), Segment::Newline]);
}

#[test]
fn verbatim_prefix_is_stripped_from_output() {
    let cfg = config(&["a"], true, OutputMode::PathsWithMatch);
    let fr = match_file(&b("\\\\?\\C:\\f"), &b("a"), &cfg);
    let segs = format_result(&fr, OutputMode::PathsWithMatch);
    assert_eq!(segs, vec![Segment::Path(b("C:\\f")), Segment::Newline]);
}

#[test]
fn recursion_gating_hides_subdirectories() {
    // root/sub/file.txt: without -r the walk must not descend into sub.
    let tree = vec![dir("/root", vec![dir("/root/sub", vec![file("/root/sub/file.txt", "foo")])])];
    let cfg = config(&["foo"], false, OutputMode::Default);
    assert_eq!(search_tree(&tree, &cfg), Vec::<Segment>::new());
    let cfg = config(&["foo"], true, OutputMode::Default);
    let segs = search_tree(&tree, &cfg);
    assert_eq!(newline_count(&segs), 1);
    assert!(segs.contains(&Segment::Path(b("/root/sub/file.txt"))));
}

#[test]
fn non_recursive_walk_still_sees_root_level_files() {
    let tree = vec![dir("/root", vec![file("/root/a.txt", "foo")])];
    let cfg = config(&["foo"], false, OutputMode::Default);
    let segs = search_tree(&tree, &cfg);
    assert_eq!(newline_count(&segs), 1);
    assert!(segs.contains(&Segment::Path(b("/root/a.txt"))));
}

#[test]
fn excluded_paths_never_appear() {
    let tree = vec![dir(
        "/root",
        vec![
            dir("/root/secret", vec![file("/root/secret/data.txt", "foo")]),
            file("/root/ok.txt", "foo"),
        ],
    )];
    for mode in [
        OutputMode::Default,
        OutputMode::LineNumbers,
        OutputMode::PathsWithMatch,
        OutputMode::PathsWithoutMatch,
    ] {
        let mut cfg = config(&["foo"], true, mode);
        cfg.exclude = vec![b("secret")];
        let segs = search_tree(&tree, &cfg);
        assert!(!segs.contains(&Segment::Path(b("/root/secret/data.txt"))));
        for s in &segs {
            if let Segment::Path(p) = s {
                assert!(!String::from_utf8_lossy(p).contains("secret"));
            }
        }
    }
}

#[test]
fn exclusion_fails_open_without_canonical_path() {
    // A directory whose path cannot be canonicalized is not excluded.
    let tree = vec![FsNode::Dir {
        canonical: None,
        children: vec![file("/root/ok.txt", "foo")],
    }];
    let mut cfg = config(&["foo"], true, OutputMode::PathsWithMatch);
    cfg.exclude = vec![b("root")];
    let segs = search_tree(&tree, &cfg);
    // The walk descends through the uncanonicalizable root, and only the
    // child, whose canonical path is known, is excluded.
    assert_eq!(segs, Vec::<Segment>::new());
    cfg.exclude = vec![b("elsewhere")];
    let segs = search_tree(&tree, &cfg);
    assert_eq!(segs, vec![Segment::Path(b("/root/ok.txt")), Segment::Newline]);
}

#[test]
fn unreadable_files_are_skipped_silently() {
    let tree = vec![dir(
        "/root",
        vec![
            FsNode::File { canonical: Some(b("/root/bin")), content: None },
            FsNode::File { canonical: None, content: Some(b("foo")) },
            file("/root/ok.txt", "foo"),
        ],
    )];
    let cfg = config(&["foo"], true, OutputMode::Default);
    let segs = search_tree(&tree, &cfg);
    assert_eq!(newline_count(&segs), 1);
    assert!(segs.contains(&Segment::Path(b("/root/ok.txt"))));
}

#[test]
fn search_is_idempotent() {
    let tree = vec![dir(
        "/r",
        vec![file("/r/a.txt", "foo bar\nbaz"), file("/r/b.txt", "no match")],
    )];
    let cfg = config(&["foo", "baz"], true, OutputMode::LineNumbers);
    let first = search_tree(&tree, &cfg);
    let second = search_tree(&tree, &cfg);
    assert_eq!(first, second);
}

#[test]
fn scenario_two_files_one_match() {
    // Tree {a/x.txt: "foo bar", a/y.txt: "baz"}, pattern "foo", recursive,
    // default mode: exactly one output line, for a/x.txt, with "foo"
    // highlighted at offsets 0..3.
    let tree = vec![dir(
        "/r/a",
        vec![file("/r/a/x.txt", "foo bar"), file("/r/a/y.txt", "baz")],
    )];
    let cfg = config(&["foo"], true, OutputMode::Default);
    let segs = search_tree(&tree, &cfg);
    assert_eq!(
        segs,
        vec![
            Segment::Path(b("/r/a/x.txt")),
            Segment::Sep,
            Segment::Text(b("")),
            Segment::Match(b("foo")),
            Segment::Text(b(" bar")),
            Segment::Newline,
        ]
    );
}

#[test]
fn a_file_root_is_searched_even_without_recursion() {
    let tree = vec![file("/r/x.txt", "foo")];
    let cfg = config(&["foo"], false, OutputMode::PathsWithMatch);
    let segs = search_tree(&tree, &cfg);
    assert_eq!(segs, vec![Segment::Path(b("/r/x.txt")), Segment::Newline]);
}

#[test]
fn a_directory_root_is_admitted_as_the_walk_self_entry() {
    // Without recursion the root directory itself is still entered, so its
    // direct files are seen; only deeper directories are pruned.
    let tree = vec![dir(
        "/r",
        vec![file("/r/a.txt", "foo"), dir("/r/sub", vec![file("/r/sub/b.txt", "foo")])],
    )];
    let cfg = config(&["foo"], false, OutputMode::PathsWithMatch);
    let segs = search_tree(&tree, &cfg);
    assert_eq!(segs, vec![Segment::Path(b("/r/a.txt")), Segment::Newline]);
}
