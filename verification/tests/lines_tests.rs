use rsgrep::lines::split_lines;

fn b(s: &str) -> Vec<u8> {
    s.as_bytes().to_vec()
}

#[test]
fn empty_buffer_has_no_lines() {
    assert_eq!(split_lines(&b("")), Vec::<Vec<u8>>::new());
}

#[test]
fn final_line_ending_is_optional() {
    assert_eq!(split_lines(&b("a\nb")), vec![b("a"), b("b")]);
    assert_eq!(split_lines(&b("a\nb\n")), vec![b("a"), b("b")]);
}

#[test]
fn lone_newline_is_one_empty_line() {
    assert_eq!(split_lines(&b("\n")), vec![b("")]);
}

#[test]
fn carriage_returns_are_stripped() {
    assert_eq!(split_lines(&b("a\r\nb\r\n")), vec![b("a"), b("b")]);
    assert_eq!(split_lines(&b("a\r\nb")), vec![b("a"), b("b")]);
}

#[test]
fn empty_middle_lines_kept() {
    assert_eq!(split_lines(&b("a\n\nb")), vec![b("a"), b(""), b("b")]);
}
