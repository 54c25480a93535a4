use chip8asm::lexer::tokenize;
use chip8asm::lexer::Token;
use chip8asm::parser::parse;
use chip8asm::parser::Stmt_;

fn parse_src(src: &[u8]) -> chip8asm::parser::Program {
    let source = src.to_vec();
    let toks = tokenize(&source).expect("lex error");
    parse(&toks).expect("parse error")
}

#[test]
fn statements_keep_source_order_one_per_line() {
    let program = parse_src(b"cls\n\nret\nnop\n");
    assert_eq!(program.statements.len(), 3);
    assert!(matches!(program.statements[0].node, Stmt_::Clear));
    assert!(matches!(program.statements[1].node, Stmt_::Return));
    assert!(matches!(program.statements[2].node, Stmt_::Nop));
}

#[test]
fn statement_spans_cover_their_tokens() {
    let program = parse_src(b"mov v0, 0x2A\n");
    assert_eq!(program.statements[0].span.lo, 0);
    assert_eq!(program.statements[0].span.hi, 12);
}

#[test]
fn sprite_declaration_collects_bytes() {
    let program = parse_src(b"$ logo 1 2 0xFF\n");
    match &program.statements[0].node {
        Stmt_::DeclareSprite(id, data) => {
            assert_eq!(id, &b"logo".to_vec());
            assert_eq!(data, &vec![1, 2, 0xFF]);
        },
        other => panic!("wrong node: {:?}", other),
    }
}

#[test]
fn sprite_declaration_may_be_empty() {
    let program = parse_src(b"$ blank\n");
    assert!(matches!(&program.statements[0].node, Stmt_::DeclareSprite(_, data) if data.is_empty()));
}

#[test]
fn mov_dispatches_on_operand_shapes() {
    let program = parse_src(
        b"mov v1, 2\nmov v1, v2\nmov v1, dt\nmov i, 3\nmov i, s\nmov dt, v1\nmov st, v1\n",
    );
    assert!(matches!(program.statements[0].node, Stmt_::MoveRegisterInteger(1, 2)));
    assert!(matches!(program.statements[1].node, Stmt_::MoveRegisterRegister(1, 2)));
    assert!(matches!(program.statements[2].node, Stmt_::MoveRegisterDelay(1)));
    assert!(matches!(program.statements[3].node, Stmt_::MoveIRegisterInteger(3)));
    assert!(matches!(&program.statements[4].node, Stmt_::MoveIRegisterSprite(id) if id == &b"s".to_vec()));
    assert!(matches!(program.statements[5].node, Stmt_::MoveDelayRegister(1)));
    assert!(matches!(program.statements[6].node, Stmt_::MoveSoundRegister(1)));
}

#[test]
fn jump_and_call_take_either_literal_bucket_or_a_label() {
    let program = parse_src(b"jmp 5\njmp 500\njmp far\ncall 5\ncall 500\ncall far\n");
    assert!(matches!(program.statements[0].node, Stmt_::JumpInteger(5)));
    assert!(matches!(program.statements[1].node, Stmt_::JumpInteger(500)));
    assert!(matches!(&program.statements[2].node, Stmt_::JumpLabel(id) if id == &b"far".to_vec()));
    assert!(matches!(program.statements[3].node, Stmt_::CallInteger(5)));
    assert!(matches!(program.statements[4].node, Stmt_::CallInteger(500)));
    assert!(matches!(&program.statements[5].node, Stmt_::CallLabel(id) if id == &b"far".to_vec()));
}

#[test]
fn trailing_garbage_is_reported_at_its_token() {
    let source = b"cls ret\n".to_vec();
    let toks = tokenize(&source).expect("lex error");
    let err = parse(&toks).unwrap_err();
    let (tok, span) = err.0.expect("expected an offending token");
    assert_eq!(tok, Token::Ret);
    assert_eq!(span.lo, 4);
}

#[test]
fn truncated_statement_is_reported_at_the_newline() {
    let source = b"mov v1\nret\n".to_vec();
    let toks = tokenize(&source).expect("lex error");
    let err = parse(&toks).unwrap_err();
    let (tok, span) = err.0.expect("expected an offending token");
    assert_eq!(tok, Token::Newline);
    assert_eq!(span.lo, 6);
}

#[test]
fn missing_final_newline_is_an_error() {
    let source = b"cls\nret".to_vec();
    let toks = tokenize(&source).expect("lex error");
    let err = parse(&toks).unwrap_err();
    assert!(err.0.is_none());
}

#[test]
fn sixteen_bit_literal_cannot_be_a_sprite_byte() {
    let source = b"$ s 300\n".to_vec();
    let toks = tokenize(&source).expect("lex error");
    let err = parse(&toks).unwrap_err();
    let (tok, _) = err.0.expect("expected an offending token");
    assert_eq!(tok, Token::Int16(300));
}

#[test]
fn eight_bit_immediate_cannot_be_sixteen_bit() {
    // `se` takes an 8-bit immediate; a 16-bit literal is a parse error.
    let source = b"se v1, 300\n".to_vec();
    let toks = tokenize(&source).expect("lex error");
    let err = parse(&toks).unwrap_err();
    let (tok, _) = err.0.expect("expected an offending token");
    assert_eq!(tok, Token::Int16(300));
}

#[test]
fn statement_cannot_start_with_an_operand() {
    let source = b"v1, v2\n".to_vec();
    let toks = tokenize(&source).expect("lex error");
    let err = parse(&toks).unwrap_err();
    let (tok, span) = err.0.expect("expected an offending token");
    assert_eq!(tok, Token::Register(1));
    assert_eq!(span.lo, 0);
}

#[test]
fn empty_input_is_an_empty_program() {
    let program = parse_src(b"");
    assert!(program.statements.is_empty());
    let program = parse_src(b"\n\n\n");
    assert!(program.statements.is_empty());
}
