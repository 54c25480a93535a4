use chip8asm::lexer::tokenize;
use chip8asm::lexer::LexErrorKind;
use chip8asm::lexer::Lexer;
use chip8asm::lexer::Token;

fn tokens_of(src: &[u8]) -> Vec<Token> {
    let source = src.to_vec();
    tokenize(&source).expect("lex error").into_iter().map(|(t, _)| t).collect()
}

#[test]
fn literal_bucket_is_by_magnitude_not_form() {
    assert_eq!(tokens_of(b"255\n"), vec![Token::Int8(255), Token::Newline]);
    assert_eq!(tokens_of(b"256\n"), vec![Token::Int16(256), Token::Newline]);
    assert_eq!(tokens_of(b"0xff\n"), vec![Token::Int8(255), Token::Newline]);
    assert_eq!(tokens_of(b"0x100\n"), vec![Token::Int16(256), Token::Newline]);
    assert_eq!(tokens_of(b"0\n"), vec![Token::Int8(0), Token::Newline]);
    assert_eq!(tokens_of(b"65535\n"), vec![Token::Int16(65535), Token::Newline]);
}

#[test]
fn registers_lex_by_longest_match() {
    assert_eq!(tokens_of(b"v0 v9 v10 v15\n"), vec![
        Token::Register(0),
        Token::Register(9),
        Token::Register(10),
        Token::Register(15),
        Token::Newline,
    ]);
    // `v16` is the register `v1` followed by the literal 6: the second digit
    // of a register is only ever 0 through 5.
    assert_eq!(tokens_of(b"v16\n"), vec![Token::Register(1), Token::Int8(6), Token::Newline]);
    // A bare `v` is an identifier.
    assert_eq!(tokens_of(b"v\n"), vec![Token::Ident(b"v".to_vec()), Token::Newline]);
}

#[test]
fn register_index_above_fifteen_is_a_lex_error() {
    let source = b"v25\n".to_vec();
    let err = tokenize(&source).unwrap_err();
    assert_eq!(err.kind, LexErrorKind::BadRegister);
    assert_eq!(err.pos, 0);
}

#[test]
fn invalid_character_is_a_lex_error() {
    let source = b"cls\n@\n".to_vec();
    let err = tokenize(&source).unwrap_err();
    assert_eq!(err.kind, LexErrorKind::InvalidChar);
    assert_eq!(err.pos, 4);
}

#[test]
fn oversized_literals_are_lex_errors() {
    let source = b"99999\n".to_vec();
    let err = tokenize(&source).unwrap_err();
    assert_eq!(err.kind, LexErrorKind::IntTooLarge);
    assert_eq!(err.pos, 0);
    let source = b"0x10000\n".to_vec();
    let err = tokenize(&source).unwrap_err();
    assert_eq!(err.kind, LexErrorKind::IntTooLarge);
}

#[test]
fn keywords_win_over_identifiers_exactly() {
    assert_eq!(tokens_of(b"mov\n"), vec![Token::Mov, Token::Newline]);
    assert_eq!(tokens_of(b"mover\n"), vec![Token::Ident(b"mover".to_vec()), Token::Newline]);
    assert_eq!(tokens_of(b"i\n"), vec![Token::IRegister, Token::Newline]);
    assert_eq!(tokens_of(b"if\n"), vec![Token::Ident(b"if".to_vec()), Token::Newline]);
    assert_eq!(tokens_of(b"dt st\n"), vec![Token::DelayTimer, Token::SoundTimer, Token::Newline]);
    assert_eq!(tokens_of(b"_x\n"), vec![Token::Ident(b"_x".to_vec()), Token::Newline]);
}

#[test]
fn punctuation_and_whitespace() {
    assert_eq!(tokens_of(b"$ s , :\n"), vec![
        Token::Dollar,
        Token::Ident(b"s".to_vec()),
        Token::Comma,
        Token::Colon,
        Token::Newline,
    ]);
    assert_eq!(tokens_of(b"  \t\r cls \t\n"), vec![Token::Cls, Token::Newline]);
}

#[test]
fn comments_run_to_end_of_line() {
    assert_eq!(tokens_of(b"cls # se v1, v2\nret\n"), vec![
        Token::Cls,
        Token::Newline,
        Token::Ret,
        Token::Newline,
    ]);
    assert_eq!(tokens_of(b"# only a comment"), vec![]);
}

#[test]
fn hex_prefix_without_hex_digits_is_decimal_zero() {
    // `0xg` has no hex digit after the prefix, so `0` lexes alone and `xg`
    // is an identifier.
    assert_eq!(tokens_of(b"0xg\n"), vec![
        Token::Int8(0),
        Token::Ident(b"xg".to_vec()),
        Token::Newline,
    ]);
}

#[test]
fn hex_digits_may_be_either_case() {
    assert_eq!(tokens_of(b"0xAB 0xab 0xAb\n"), vec![
        Token::Int8(0xAB),
        Token::Int8(0xAB),
        Token::Int8(0xAB),
        Token::Newline,
    ]);
}

#[test]
fn spans_are_byte_intervals() {
    let source = b" cls 0x2A\n".to_vec();
    let toks = tokenize(&source).expect("lex error");
    assert_eq!(toks[0].1.lo, 1);
    assert_eq!(toks[0].1.hi, 4);
    assert_eq!(toks[1].1.lo, 5);
    assert_eq!(toks[1].1.hi, 9);
    assert_eq!(toks[2].1.lo, 9);
    assert_eq!(toks[2].1.hi, 10);
}

#[test]
fn lexer_hands_out_tokens_one_at_a_time() {
    let source = b"cls\n".to_vec();
    let mut lexer = Lexer::new(&source);
    assert_eq!(lexer.next().unwrap().unwrap().0, Token::Cls);
    assert_eq!(lexer.next().unwrap().unwrap().0, Token::Newline);
    assert!(lexer.next().unwrap().is_none());
}
