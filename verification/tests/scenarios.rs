use chip8asm::interp::check_fits;
use chip8asm::interp::check_wf;
use chip8asm::interp::interp;
use chip8asm::interp::AsmError;
use chip8asm::interp::SymbolKind;
use chip8asm::interp::Warning;
use chip8asm::lexer::tokenize;
use chip8asm::parser::parse;

fn assemble(src: &[u8]) -> (Vec<Warning>, Result<Vec<u8>, AsmError>) {
    let source = src.to_vec();
    let toks = tokenize(&source).expect("lex error");
    let program = parse(&toks).expect("parse error");
    assert!(check_wf(&program));
    assert!(check_fits(&program));
    interp(&program)
}

#[test]
fn cls_ret_image() {
    let (warnings, result) = assemble(b"cls\nret\n");
    assert!(warnings.is_empty());
    assert_eq!(result.unwrap(), vec![0x00, 0xE0, 0x00, 0xEE]);
}

#[test]
fn mov_add_image() {
    let (warnings, result) = assemble(b"mov v0, 0x2A\nadd v0, 1\n");
    assert!(warnings.is_empty());
    assert_eq!(result.unwrap(), vec![0x60, 0x2A, 0x70, 0x01]);
}

#[test]
fn label_forward_reference() {
    // The label precedes `ret`, the third emitted instruction (0-based index
    // 2), so it denotes 0x200 + 2 * 2 = 0x204.
    let (warnings, result) = assemble(b"jmp end\ncls\nend:\nret\n");
    assert!(warnings.is_empty());
    assert_eq!(result.unwrap(), vec![0x12, 0x04, 0x00, 0xE0, 0x00, 0xEE]);
}

#[test]
fn sprite_reference() {
    // Two emitted instructions make the code segment 4 bytes, so the sprite
    // lives at 0x204 and `mov i, smiley` encodes A2 04.
    let (warnings, result) = assemble(b"mov i, smiley\ndrw v0, v1, 3\n$ smiley 0xAA 0x55 0xAA\n");
    assert!(warnings.is_empty());
    assert_eq!(result.unwrap(), vec![0xA2, 0x04, 0xD0, 0x13, 0xAA, 0x55, 0xAA]);
}

#[test]
fn undefined_label_is_fatal() {
    let source = b"jmp nowhere\n".to_vec();
    let toks = tokenize(&source).expect("lex error");
    let program = parse(&toks).expect("parse error");
    assert!(check_wf(&program));
    assert!(check_fits(&program));
    let (warnings, result) = interp(&program);
    assert!(warnings.is_empty());
    let err = result.unwrap_err();
    assert_eq!(err.kind, SymbolKind::Label);
    assert_eq!(err.name, b"nowhere".to_vec());
    let diag = chip8asm::diagnostic::Diagnostic::from_source(&source);
    assert_eq!(diag.get_line(err.span.lo), 1);
}

#[test]
fn undefined_sprite_is_fatal() {
    let source = b"cls\nmov i, ghost\n".to_vec();
    let toks = tokenize(&source).expect("lex error");
    let program = parse(&toks).expect("parse error");
    let (_, result) = interp(&program);
    let err = result.unwrap_err();
    assert_eq!(err.kind, SymbolKind::Sprite);
    assert_eq!(err.name, b"ghost".to_vec());
    let diag = chip8asm::diagnostic::Diagnostic::from_source(&source);
    assert_eq!(diag.get_line(err.span.lo), 2);
}

#[test]
fn duplicate_label_warns_and_last_wins() {
    // Both declarations of `l` precede the first emitted instruction, so the
    // surviving address is 0x200 either way; one warning is emitted.
    let source = b"l:\nl:\ncls\n".to_vec();
    let toks = tokenize(&source).expect("lex error");
    let program = parse(&toks).expect("parse error");
    let (warnings, result) = interp(&program);
    assert_eq!(result.unwrap(), vec![0x00, 0xE0]);
    assert_eq!(warnings.len(), 1);
    assert_eq!(warnings[0].kind, SymbolKind::Label);
    assert_eq!(warnings[0].name, b"l".to_vec());
    let diag = chip8asm::diagnostic::Diagnostic::from_source(&source);
    assert_eq!(diag.get_line(warnings[0].span.lo), 2);
}

#[test]
fn duplicate_label_resolves_to_last_declaration() {
    // The second `l` precedes `ret`, the second emitted instruction, so the
    // jump targets 0x202, not 0x200.
    let (warnings, result) = assemble(b"l:\njmp l\nl:\nret\n");
    assert_eq!(warnings.len(), 1);
    assert_eq!(result.unwrap(), vec![0x12, 0x02, 0x00, 0xEE]);
}

#[test]
fn duplicate_sprite_warns_and_last_wins() {
    // Code is 2 bytes, so the first `s` sits at 0x202 and the second at
    // 0x203; the reference resolves to the last declaration.
    let (warnings, result) = assemble(b"$ s 1\n$ s 2 3\nmov i, s\n");
    assert_eq!(warnings.len(), 1);
    assert_eq!(warnings[0].kind, SymbolKind::Sprite);
    assert_eq!(warnings[0].name, b"s".to_vec());
    assert_eq!(result.unwrap(), vec![0xA2, 0x03, 0x01, 0x02, 0x03]);
}

#[test]
fn forward_and_backward_references_match() {
    // `end` denotes 0x202 for both the forward and the backward reference.
    let (warnings, result) = assemble(b"jmp end\nend:\njmp end\n");
    assert!(warnings.is_empty());
    assert_eq!(result.unwrap(), vec![0x12, 0x02, 0x12, 0x02]);
}

#[test]
fn carriage_return_line_endings_assemble() {
    let (warnings, result) = assemble(b"cls\r\nret\r\n");
    assert!(warnings.is_empty());
    assert_eq!(result.unwrap(), vec![0x00, 0xE0, 0x00, 0xEE]);
}

#[test]
fn comments_are_ignored() {
    let (warnings, result) = assemble(b"# a program\ncls # clear\nret\n");
    assert!(warnings.is_empty());
    assert_eq!(result.unwrap(), vec![0x00, 0xE0, 0x00, 0xEE]);
}

#[test]
fn empty_sprite_and_blank_lines() {
    let (warnings, result) = assemble(b"\n\ncls\n\n$ empty\n\n");
    assert!(warnings.is_empty());
    assert_eq!(result.unwrap(), vec![0x00, 0xE0]);
}

#[test]
fn output_length_counts_only_emitting_statements() {
    // 3 statements, of which one label and one sprite declaration: one
    // emitted instruction plus 2 sprite bytes.
    let (_, result) = assemble(b"here:\ncls\n$ dots 7 9\n");
    assert_eq!(result.unwrap().len(), 2 + 2);
}

#[test]
fn draw_height_out_of_range_is_rejected() {
    // `drw` carries a four-bit height; 255 parses as an `Int8` operand but
    // the assembler's well-formedness check refuses it.
    let source = b"drw v0, v1, 255\n".to_vec();
    let toks = tokenize(&source).expect("lex error");
    let program = parse(&toks).expect("parse error");
    assert!(!check_wf(&program));
}

#[test]
fn oversized_program_is_rejected() {
    // 0xE00 bytes of code fill the address space exactly; one more
    // instruction goes over.
    let mut fits = Vec::new();
    for _ in 0..1792 {
        fits.extend_from_slice(b"nop\n");
    }
    let mut over = fits.clone();
    over.extend_from_slice(b"nop\n");
    let toks = tokenize(&fits).expect("lex error");
    let program = parse(&toks).expect("parse error");
    assert!(check_fits(&program));
    let toks = tokenize(&over).expect("lex error");
    let program = parse(&toks).expect("parse error");
    assert!(!check_fits(&program));
}
