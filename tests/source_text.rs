use bundler::tree::source_lines;

#[test]
fn splits_at_line_breaks() {
    assert_eq!(source_lines("a\nb"), vec!["a".to_string(), "b".to_string()]);
}

#[test]
fn final_line_break_starts_no_line() {
    assert_eq!(source_lines("a\n"), vec!["a".to_string()]);
    assert_eq!(source_lines("\n"), vec![String::new()]);
    assert_eq!(source_lines(""), Vec::<String>::new());
}

#[test]
fn trailing_whitespace_is_removed() {
    assert_eq!(
        source_lines("  fn f() {}  \r\n\t\n x \t"),
        vec!["  fn f() {}".to_string(), String::new(), " x".to_string()]
    );
}

#[test]
fn empty_lines_are_kept() {
    assert_eq!(
        source_lines("a\n\n\nb\n"),
        vec!["a".to_string(), String::new(), String::new(), "b".to_string()]
    );
}
