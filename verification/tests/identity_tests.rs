use license_gen::identity::strip_trailing_newline;

#[test]
fn strips_trailing_lf() {
    assert_eq!(strip_trailing_newline("Alice\n"), "Alice");
}

#[test]
fn strips_trailing_crlf() {
    assert_eq!(strip_trailing_newline("Alice\r\n"), "Alice");
}

#[test]
fn leaves_unterminated_name_alone() {
    assert_eq!(strip_trailing_newline("Alice"), "Alice");
}

#[test]
fn keeps_bare_trailing_cr() {
    assert_eq!(strip_trailing_newline("Alice\r"), "Alice\r");
}

#[test]
fn strips_only_one_terminator() {
    assert_eq!(strip_trailing_newline("Alice\n\n"), "Alice\n");
}

#[test]
fn empty_candidate_stays_empty() {
    assert_eq!(strip_trailing_newline(""), "");
    assert_eq!(strip_trailing_newline("\n"), "");
    assert_eq!(strip_trailing_newline("\r\n"), "");
}
