use rsgrep::rx::{compile_failures, match_regex};
use rsgrep::config::{OutputMode, SearchConfig};
use rsgrep::search::match_file;

fn b(s: &str) -> Vec<u8> {
    s.as_bytes().to_vec()
}

#[test]
fn regex_finds_first_match_span() {
    let m = match_regex(&b("abcde"), 0, &vec![b("b.d")]).unwrap();
    assert_eq!((m.start, m.end), (1, 4));
    assert_eq!(m.line, b("abcde"));
}

#[test]
fn invalid_regex_is_skipped_and_later_one_matches() {
    // The first pattern does not compile; the second still matches "cab".
    let regexes = vec![b("("), b("a.*")];
    let m = match_regex(&b("cab"), 0, &regexes).unwrap();
    assert_eq!((m.start, m.end), (1, 3));
    assert_eq!(compile_failures(&regexes), vec![0]);
}

#[test]
fn declaration_order_priority_for_regexes() {
    // Both compile and both match; the first declared wins even though the
    // second matches earlier in the line.
    let regexes = vec![b("A"), b("B")];
    let m = match_regex(&b("xByA"), 0, &regexes).unwrap();
    assert_eq!((m.start, m.end), (3, 4));
}

#[test]
fn no_regex_match_gives_none() {
    assert!(match_regex(&b("cab"), 0, &vec![b("z+")]).is_none());
    assert!(match_regex(&b("cab"), 0, &vec![b("(")]).is_none());
    assert!(match_regex(&b("cab"), 0, &vec![]).is_none());
}

#[test]
fn all_valid_regexes_report_no_failures() {
    assert_eq!(compile_failures(&vec![b("a.*"), b("b+")]), Vec::<usize>::new());
    assert_eq!(compile_failures(&vec![b("("), b("a"), b("[")]), vec![0, 2]);
}

#[test]
fn regex_mode_in_file_matching() {
    let cfg = SearchConfig {
        recursive: true,
        follow_symlinks: false,
        exclude: vec![],
        patterns: vec![],
        regexes: vec![b("^ba.")],
        use_regex: true,
        output_mode: OutputMode::Default,
    };
    let fr = match_file(&b("/f"), &b("abc\nbar\nbaz"), &cfg);
    assert_eq!(fr.lines.len(), 2);
    assert_eq!(fr.lines[0].line, b("bar"));
    assert_eq!(fr.lines[0].line_number, 1);
    assert_eq!((fr.lines[0].start, fr.lines[0].end), (0, 3));
    assert_eq!(fr.lines[1].line, b("baz"));
}
