use chip8asm::diagnostic::Diagnostic;

#[test]
fn offsets_resolve_to_one_based_lines() {
    let source = b"cls\nret\nnop\n".to_vec();
    let diag = Diagnostic::from_source(&source);
    assert_eq!(diag.get_line(0), 1);
    assert_eq!(diag.get_line(2), 1);
    assert_eq!(diag.get_line(3), 1);
    assert_eq!(diag.get_line(4), 2);
    assert_eq!(diag.get_line(7), 2);
    assert_eq!(diag.get_line(8), 3);
    assert_eq!(diag.get_line(11), 3);
}

#[test]
fn offsets_past_the_end_resolve_to_zero() {
    let source = b"cls\n".to_vec();
    let diag = Diagnostic::from_source(&source);
    assert_eq!(diag.get_line(4), 0);
    assert_eq!(diag.get_line(100), 0);
    let empty = Vec::new();
    let diag = Diagnostic::from_source(&empty);
    assert_eq!(diag.get_line(0), 0);
}

#[test]
fn carriage_returns_stay_inside_their_line() {
    let source = b"cls\r\nret\r\n".to_vec();
    let diag = Diagnostic::from_source(&source);
    assert_eq!(diag.get_line(3), 1);
    assert_eq!(diag.get_line(5), 2);
    assert_eq!(diag.get_line(8), 2);
}

#[test]
fn line_of_an_unterminated_tail() {
    let source = b"cls\nret".to_vec();
    let diag = Diagnostic::from_source(&source);
    assert_eq!(diag.get_line(5), 2);
    assert_eq!(diag.get_line(7), 0);
}
