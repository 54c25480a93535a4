use chip8asm::interp::check_fits;
use chip8asm::interp::check_wf;
use chip8asm::interp::interp;
use chip8asm::lexer::tokenize;
use chip8asm::parser::parse;

#[test]
fn every_instruction_encodes_per_the_opcode_table() {
    let source: &[u8] = b"nop\n\
cls\n\
ret\n\
jmp 0x123\n\
jmp fin\n\
call 0x123\n\
call fin\n\
se v1, 0x12\n\
se v1, v2\n\
sne v1, 0x12\n\
sne v1, v2\n\
mov v1, 0x12\n\
add v1, 0x12\n\
mov v1, v2\n\
or v1, v2\n\
and v1, v2\n\
xor v1, v2\n\
add v1, v2\n\
sub v1, v2\n\
shr v1\n\
subn v1, v2\n\
shl v1\n\
mov i, 0x123\n\
mov i, dot\n\
jmpr 0x123\n\
rnd v1, 0x12\n\
drw v1, v2, 3\n\
skp v1\n\
sknp v1\n\
mov v1, dt\n\
wait v1\n\
mov dt, v1\n\
mov st, v1\n\
add i, v1\n\
spr v1\n\
bcd v1\n\
save v1\n\
load v1\n\
fin:\n\
$ dot 0xAA\n";
    let source = source.to_vec();
    let toks = tokenize(&source).expect("lex error");
    let program = parse(&toks).expect("parse error");
    assert!(check_wf(&program));
    assert!(check_fits(&program));
    let (warnings, result) = interp(&program);
    assert!(warnings.is_empty());
    // 38 emitted instructions make the code segment 76 = 0x4C bytes, so both
    // `fin` and the sprite `dot` denote 0x24C.
    let expected: Vec<u8> = vec![
        0x00, 0x00, // nop
        0x00, 0xE0, // cls
        0x00, 0xEE, // ret
        0x11, 0x23, // jmp 0x123
        0x12, 0x4C, // jmp fin
        0x21, 0x23, // call 0x123
        0x22, 0x4C, // call fin
        0x31, 0x12, // se v1, 0x12
        0x51, 0x20, // se v1, v2
        0x41, 0x12, // sne v1, 0x12
        0x91, 0x20, // sne v1, v2
        0x61, 0x12, // mov v1, 0x12
        0x71, 0x12, // add v1, 0x12
        0x81, 0x20, // mov v1, v2
        0x81, 0x21, // or v1, v2
        0x81, 0x22, // and v1, v2
        0x81, 0x23, // xor v1, v2
        0x81, 0x24, // add v1, v2
        0x81, 0x25, // sub v1, v2
        0x81, 0x06, // shr v1
        0x81, 0x27, // subn v1, v2
        0x81, 0x0E, // shl v1
        0xA1, 0x23, // mov i, 0x123
        0xA2, 0x4C, // mov i, dot
        0xB1, 0x23, // jmpr 0x123
        0xC1, 0x12, // rnd v1, 0x12
        0xD1, 0x23, // drw v1, v2, 3
        0xE1, 0x9E, // skp v1
        0xE1, 0xA1, // sknp v1
        0xF1, 0x07, // mov v1, dt
        0xF1, 0x0A, // wait v1
        0xF1, 0x15, // mov dt, v1
        0xF1, 0x18, // mov st, v1
        0xF1, 0x1E, // add i, v1
        0xF1, 0x29, // spr v1
        0xF1, 0x33, // bcd v1
        0xF1, 0x55, // save v1
        0xF1, 0x65, // load v1
        0xAA, // $ dot
    ];
    assert_eq!(result.unwrap(), expected);
}

#[test]
fn twelve_bit_addresses_are_masked() {
    // 5000 is 0x1388; only the low twelve bits 0x388 reach the opcode.
    let source = b"jmp 5000\n".to_vec();
    let toks = tokenize(&source).expect("lex error");
    let program = parse(&toks).expect("parse error");
    assert!(check_wf(&program));
    assert!(check_fits(&program));
    let (_, result) = interp(&program);
    assert_eq!(result.unwrap(), vec![0x13, 0x88]);
}

#[test]
fn registers_up_to_fifteen_encode() {
    let source = b"mov v15, v10\nshl v9\n".to_vec();
    let toks = tokenize(&source).expect("lex error");
    let program = parse(&toks).expect("parse error");
    assert!(check_wf(&program));
    assert!(check_fits(&program));
    let (_, result) = interp(&program);
    assert_eq!(result.unwrap(), vec![0x8F, 0xA0, 0x89, 0x0E]);
}
