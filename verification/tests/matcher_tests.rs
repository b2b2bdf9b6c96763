use rsgrep::matcher::{find_sub, match_pattern};
use rsgrep::search::match_path;

fn b(s: &str) -> Vec<u8> {
    s.as_bytes().to_vec()
}

#[test]
fn find_sub_first_occurrence() {
    assert_eq!(find_sub(&b("hello world"), &b("o")), Some(4));
    assert_eq!(find_sub(&b("hello world"), &b("world")), Some(6));
    assert_eq!(find_sub(&b("hello world"), &b("xyz")), None);
}

#[test]
fn find_sub_empty_pattern_matches_at_zero() {
    assert_eq!(find_sub(&b("abc"), &b("")), Some(0));
    assert_eq!(find_sub(&b(""), &b("")), Some(0));
}

#[test]
fn find_sub_pattern_longer_than_text() {
    assert_eq!(find_sub(&b("ab"), &b("abc")), None);
}

#[test]
fn find_sub_overlapping_candidates() {
    assert_eq!(find_sub(&b("aaab"), &b("aab")), Some(1));
}

#[test]
fn declaration_order_beats_position() {
    // The line holds B before A, but A is declared first: A's span wins.
    let line = b("xByA");
    let patterns = vec![b("A"), b("B")];
    let m = match_pattern(&line, 0, &patterns).unwrap();
    assert_eq!(m.start, 3);
    assert_eq!(m.end, 4);
    assert_eq!(m.line, b("xByA"));
    assert_eq!(m.line_number, 0);
}

#[test]
fn later_pattern_used_when_first_absent() {
    let line = b("only bees");
    let patterns = vec![b("zz"), b("bee")];
    let m = match_pattern(&line, 7, &patterns).unwrap();
    assert_eq!(m.start, 5);
    assert_eq!(m.end, 8);
    assert_eq!(m.line_number, 7);
}

#[test]
fn no_pattern_no_match() {
    let line = b("nothing here");
    let patterns = vec![b("zz"), b("yy")];
    assert!(match_pattern(&line, 0, &patterns).is_none());
}

#[test]
fn path_matching_is_presence_only() {
    let path = b("/home/user/notes.txt");
    assert!(match_path(&path, &vec![b("notes")]));
    assert!(match_path(&path, &vec![b("zz"), b("user")]));
    assert!(!match_path(&path, &vec![b("zz")]));
    assert!(!match_path(&path, &vec![]));
}
