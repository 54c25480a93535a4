//! The parser: turns the token stream into a `Program` of statements.
//!
//! The grammar is line-oriented: every statement is terminated by a newline,
//! and blank lines are tolerated anywhere. Statements dispatch on the leading
//! mnemonic and the shape of their operands; the first unexpected token is a
//! fatal parse error, reported together with its span.
use vstd::prelude::*;

use crate::copy_bytes;
use crate::lexer::Span;
use crate::lexer::Token;

verus! {

/// A statement of the assembly language, with exactly the operands the
/// opcode requires. Register indices are `u8` values in `0..=15`; `u16`
/// payloads carry integer literals and addresses.
#[derive(Debug, Clone, PartialEq, Eq)]
pub enum Stmt_ {
    DeclareSprite(Vec<u8>, Vec<u8>),
    DeclareLabel(Vec<u8>),
    Nop,
    Clear,
    Return,
    JumpInteger(u16),
    JumpLabel(Vec<u8>),
    CallInteger(u16),
    CallLabel(Vec<u8>),
    SkipEqualsInteger(u8, u8),
    SkipNotEqualsInteger(u8, u8),
    SkipEqualsRegister(u8, u8),
    MoveRegisterInteger(u8, u8),
    AddRegisterInteger(u8, u8),
    MoveRegisterRegister(u8, u8),
    Or(u8, u8),
    And(u8, u8),
    Xor(u8, u8),
    AddRegisterRegister(u8, u8),
    Subtract(u8, u8),
    ShiftRight(u8),
    SubtractReverse(u8, u8),
    ShiftLeft(u8),
    SkipNotEqualsRegister(u8, u8),
    MoveIRegisterInteger(u16),
    MoveIRegisterSprite(Vec<u8>),
    JumpRegister(u16),
    Random(u8, u8),
    Draw(u8, u8, u8),
    SkipKeyPressed(u8),
    SkipKeyNotPressed(u8),
    MoveRegisterDelay(u8),
    WaitKeyPress(u8),
    MoveDelayRegister(u8),
    MoveSoundRegister(u8),
    AddIRegisterRegister(u8),
    Sprite(u8),
    Bcd(u8),
    Save(u8),
    Load(u8),
}

/// A statement together with the span of its tokens.
#[derive(Debug, Clone, PartialEq, Eq)]
pub struct Stmt {
    pub span: Span,
    pub node: Stmt_,
}

/// An ordered sequence of statements, one per non-blank source line.
#[derive(Debug)]
pub struct Program {
    pub statements: Vec<Stmt>,
}

// ---------------------------------------------------------------------------
// What each statement's token line looks like
// ---------------------------------------------------------------------------

/// Whether token `t` is an integer literal of value `n` (either bucket).
pub open spec fn int_operand(t: Token, n: u16) -> bool {
    ||| (t matches Token::Int8(b) && n == b)
    ||| (t matches Token::Int16(w) && n == w)
}

/// Whether `node` is the statement spelled by the token line `line`
/// (the statement's own tokens, without the terminating newline).
pub open spec fn stmt_node_matches(node: Stmt_, line: Seq<(Token, Span)>) -> bool {
    let n = line.len() as int;
    match node {
        Stmt_::DeclareSprite(id, data) => {
            &&& n >= 2
            &&& line[0].0 is Dollar
            &&& line[1].0 matches Token::Ident(v) && id@ == v@
            &&& data@.len() == n - 2
            &&& forall|k: int|
                0 <= k < n - 2 ==> (#[trigger] line[k + 2].0 matches Token::Int8(b) && data@[k]
                    == b)
        },
        Stmt_::DeclareLabel(id) => n == 2 && (line[0].0 matches Token::Ident(v) && id@ == v@)
            && line[1].0 is Colon,
        Stmt_::Nop => n == 1 && line[0].0 is Nop,
        Stmt_::Clear => n == 1 && line[0].0 is Cls,
        Stmt_::Return => n == 1 && line[0].0 is Ret,
        Stmt_::JumpInteger(nnn) => n == 2 && line[0].0 is Jmp && int_operand(line[1].0, nnn),
        Stmt_::JumpLabel(id) => n == 2 && line[0].0 is Jmp && (line[1].0 matches Token::Ident(v)
            && id@ == v@),
        Stmt_::CallInteger(nnn) => n == 2 && line[0].0 is Call && int_operand(line[1].0, nnn),
        Stmt_::CallLabel(id) => n == 2 && line[0].0 is Call && (line[1].0 matches Token::Ident(v)
            && id@ == v@),
        Stmt_::SkipEqualsInteger(x, nn) => n == 4 && line[0].0 is Se && (line[1].0
            matches Token::Register(r) && x == r) && line[2].0 is Comma && (line[3].0
            matches Token::Int8(b) && nn == b),
        Stmt_::SkipNotEqualsInteger(x, nn) => n == 4 && line[0].0 is Sne && (line[1].0
            matches Token::Register(r) && x == r) && line[2].0 is Comma && (line[3].0
            matches Token::Int8(b) && nn == b),
        Stmt_::SkipEqualsRegister(x, y) => n == 4 && line[0].0 is Se && (line[1].0
            matches Token::Register(r) && x == r) && line[2].0 is Comma && (line[3].0
            matches Token::Register(s) && y == s),
        Stmt_::MoveRegisterInteger(x, nn) => n == 4 && line[0].0 is Mov && (line[1].0
            matches Token::Register(r) && x == r) && line[2].0 is Comma && (line[3].0
            matches Token::Int8(b) && nn == b),
        Stmt_::AddRegisterInteger(x, nn) => n == 4 && line[0].0 is Add && (line[1].0
            matches Token::Register(r) && x == r) && line[2].0 is Comma && (line[3].0
            matches Token::Int8(b) && nn == b),
        Stmt_::MoveRegisterRegister(x, y) => n == 4 && line[0].0 is Mov && (line[1].0
            matches Token::Register(r) && x == r) && line[2].0 is Comma && (line[3].0
            matches Token::Register(s) && y == s),
        Stmt_::Or(x, y) => n == 4 && line[0].0 is Or && (line[1].0 matches Token::Register(r) && x
            == r) && line[2].0 is Comma && (line[3].0 matches Token::Register(s) && y == s),
        Stmt_::And(x, y) => n == 4 && line[0].0 is And && (line[1].0 matches Token::Register(r)
            && x == r) && line[2].0 is Comma && (line[3].0 matches Token::Register(s) && y == s),
        Stmt_::Xor(x, y) => n == 4 && line[0].0 is Xor && (line[1].0 matches Token::Register(r)
            && x == r) && line[2].0 is Comma && (line[3].0 matches Token::Register(s) && y == s),
        Stmt_::AddRegisterRegister(x, y) => n == 4 && line[0].0 is Add && (line[1].0
            matches Token::Register(r) && x == r) && line[2].0 is Comma && (line[3].0
            matches Token::Register(s) && y == s),
        Stmt_::Subtract(x, y) => n == 4 && line[0].0 is Sub && (line[1].0
            matches Token::Register(r) && x == r) && line[2].0 is Comma && (line[3].0
            matches Token::Register(s) && y == s),
        Stmt_::ShiftRight(x) => n == 2 && line[0].0 is Shr && (line[1].0
            matches Token::Register(r) && x == r),
        Stmt_::SubtractReverse(x, y) => n == 4 && line[0].0 is Subn && (line[1].0
            matches Token::Register(r) && x == r) && line[2].0 is Comma && (line[3].0
            matches Token::Register(s) && y == s),
        Stmt_::ShiftLeft(x) => n == 2 && line[0].0 is Shl && (line[1].0
            matches Token::Register(r) && x == r),
        Stmt_::SkipNotEqualsRegister(x, y) => n == 4 && line[0].0 is Sne && (line[1].0
            matches Token::Register(r) && x == r) && line[2].0 is Comma && (line[3].0
            matches Token::Register(s) && y == s),
        Stmt_::MoveIRegisterInteger(nnn) => n == 4 && line[0].0 is Mov && line[1].0 is IRegister
            && line[2].0 is Comma && int_operand(line[3].0, nnn),
        Stmt_::MoveIRegisterSprite(id) => n == 4 && line[0].0 is Mov && line[1].0 is IRegister
            && line[2].0 is Comma && (line[3].0 matches Token::Ident(v) && id@ == v@),
        Stmt_::JumpRegister(nnn) => n == 2 && line[0].0 is Jmpr && int_operand(line[1].0, nnn),
        Stmt_::Random(x, nn) => n == 4 && line[0].0 is Rnd && (line[1].0
            matches Token::Register(r) && x == r) && line[2].0 is Comma && (line[3].0
            matches Token::Int8(b) && nn == b),
        Stmt_::Draw(x, y, d) => n == 6 && line[0].0 is Drw && (line[1].0
            matches Token::Register(r) && x == r) && line[2].0 is Comma && (line[3].0
            matches Token::Register(s) && y == s) && line[4].0 is Comma && (line[5].0
            matches Token::Int8(b) && d == b),
        Stmt_::SkipKeyPressed(x) => n == 2 && line[0].0 is Skp && (line[1].0
            matches Token::Register(r) && x == r),
        Stmt_::SkipKeyNotPressed(x) => n == 2 && line[0].0 is Sknp && (line[1].0
            matches Token::Register(r) && x == r),
        Stmt_::MoveRegisterDelay(x) => n == 4 && line[0].0 is Mov && (line[1].0
            matches Token::Register(r) && x == r) && line[2].0 is Comma && line[3].0
            is DelayTimer,
        Stmt_::WaitKeyPress(x) => n == 2 && line[0].0 is Wait && (line[1].0
            matches Token::Register(r) && x == r),
        Stmt_::MoveDelayRegister(x) => n == 4 && line[0].0 is Mov && line[1].0 is DelayTimer
            && line[2].0 is Comma && (line[3].0 matches Token::Register(r) && x == r),
        Stmt_::MoveSoundRegister(x) => n == 4 && line[0].0 is Mov && line[1].0 is SoundTimer
            && line[2].0 is Comma && (line[3].0 matches Token::Register(r) && x == r),
        Stmt_::AddIRegisterRegister(x) => n == 4 && line[0].0 is Add && line[1].0 is IRegister
            && line[2].0 is Comma && (line[3].0 matches Token::Register(r) && x == r),
        Stmt_::Sprite(x) => n == 2 && line[0].0 is Spr && (line[1].0 matches Token::Register(r)
            && x == r),
        Stmt_::Bcd(x) => n == 2 && line[0].0 is Bcd && (line[1].0 matches Token::Register(r) && x
            == r),
        Stmt_::Save(x) => n == 2 && line[0].0 is Save && (line[1].0 matches Token::Register(r)
            && x == r),
        Stmt_::Load(x) => n == 2 && line[0].0 is Load && (line[1].0 matches Token::Register(r)
            && x == r),
    }
}

/// Whether statement `s` is spelled by the token line `line`, spans included:
/// a statement's span runs from its first token's start to its last token's
/// end.
pub open spec fn stmt_matches(s: Stmt, line: Seq<(Token, Span)>) -> bool {
    &&& line.len() > 0
    &&& s.span.lo == line[0].1.lo
    &&& s.span.hi == line[line.len() - 1].1.hi
    &&& stmt_node_matches(s.node, line)
}

/// Whether the token line `line` spells some statement.
pub open spec fn line_ok(line: Seq<(Token, Span)>) -> bool {
    let n = line.len() as int;
    &&& n > 0
    &&& match line[0].0 {
        Token::Dollar => n >= 2 && line[1].0 is Ident && (forall|k: int|
            2 <= k < n ==> #[trigger] line[k].0 is Int8),
        Token::Ident(_) => n == 2 && line[1].0 is Colon,
        Token::Nop => n == 1,
        Token::Cls => n == 1,
        Token::Ret => n == 1,
        Token::Jmp => n == 2 && (line[1].0 is Int8 || line[1].0 is Int16 || line[1].0 is Ident),
        Token::Call => n == 2 && (line[1].0 is Int8 || line[1].0 is Int16 || line[1].0 is Ident),
        Token::Se => n == 4 && line[1].0 is Register && line[2].0 is Comma && (line[3].0 is Int8
            || line[3].0 is Register),
        Token::Sne => n == 4 && line[1].0 is Register && line[2].0 is Comma && (line[3].0 is Int8
            || line[3].0 is Register),
        Token::Mov => n == 4 && line[2].0 is Comma && {
            ||| line[1].0 is Register && (line[3].0 is Int8 || line[3].0 is Register || line[3].0
                is DelayTimer)
            ||| line[1].0 is IRegister && (line[3].0 is Int8 || line[3].0 is Int16 || line[3].0
                is Ident)
            ||| line[1].0 is DelayTimer && line[3].0 is Register
            ||| line[1].0 is SoundTimer && line[3].0 is Register
        },
        Token::Add => n == 4 && line[2].0 is Comma && {
            ||| line[1].0 is Register && (line[3].0 is Int8 || line[3].0 is Register)
            ||| line[1].0 is IRegister && line[3].0 is Register
        },
        Token::Or => n == 4 && line[1].0 is Register && line[2].0 is Comma && line[3].0
            is Register,
        Token::And => n == 4 && line[1].0 is Register && line[2].0 is Comma && line[3].0
            is Register,
        Token::Xor => n == 4 && line[1].0 is Register && line[2].0 is Comma && line[3].0
            is Register,
        Token::Sub => n == 4 && line[1].0 is Register && line[2].0 is Comma && line[3].0
            is Register,
        Token::Subn => n == 4 && line[1].0 is Register && line[2].0 is Comma && line[3].0
            is Register,
        Token::Shr => n == 2 && line[1].0 is Register,
        Token::Shl => n == 2 && line[1].0 is Register,
        Token::Jmpr => n == 2 && (line[1].0 is Int8 || line[1].0 is Int16),
        Token::Rnd => n == 4 && line[1].0 is Register && line[2].0 is Comma && line[3].0 is Int8,
        Token::Drw => n == 6 && line[1].0 is Register && line[2].0 is Comma && line[3].0
            is Register && line[4].0 is Comma && line[5].0 is Int8,
        Token::Skp => n == 2 && line[1].0 is Register,
        Token::Sknp => n == 2 && line[1].0 is Register,
        Token::Wait => n == 2 && line[1].0 is Register,
        Token::Spr => n == 2 && line[1].0 is Register,
        Token::Bcd => n == 2 && line[1].0 is Register,
        Token::Save => n == 2 && line[1].0 is Register,
        Token::Load => n == 2 && line[1].0 is Register,
        _ => false,
    }
}

// ---------------------------------------------------------------------------
// Where a bad line fails
// ---------------------------------------------------------------------------

/// The first index at or after `k` whose token is not an `Int8` literal, or
/// the line's length when all are.
pub open spec fn first_non_int8(line: Seq<(Token, Span)>, k: int) -> int
    decreases line.len() - k,
{
    if 0 <= k < line.len() {
        if line[k].0 is Int8 {
            first_non_int8(line, k + 1)
        } else {
            k
        }
    } else {
        k
    }
}

/// The failure index of a two-token statement whose operand check is `ok1`.
pub open spec fn fail2(n: int, ok1: bool) -> int {
    if !(n >= 2 && ok1) {
        1
    } else {
        2
    }
}

/// The failure index of a four-token statement: mnemonic, operand, comma,
/// operand, with operand checks `ok1` and `ok3`.
pub open spec fn fail4(line: Seq<(Token, Span)>, ok1: bool, ok3: bool) -> int {
    let n = line.len() as int;
    if !(n >= 2 && ok1) {
        1
    } else if !(n >= 3 && line[2].0 is Comma) {
        2
    } else if !(n >= 4 && ok3) {
        3
    } else {
        4
    }
}

/// The index, relative to the line's start, of the first token the parser
/// rejects. An index equal to the line's length points at the terminator.
/// Meaningful only when `!line_ok(line)`.
pub open spec fn line_fail_idx(line: Seq<(Token, Span)>) -> int {
    let n = line.len() as int;
    match line[0].0 {
        Token::Dollar => if !(n >= 2 && line[1].0 is Ident) {
            1
        } else {
            first_non_int8(line, 2)
        },
        Token::Ident(_) => fail2(n, line[1].0 is Colon),
        Token::Nop => 1,
        Token::Cls => 1,
        Token::Ret => 1,
        Token::Jmp => fail2(n, line[1].0 is Int8 || line[1].0 is Int16 || line[1].0 is Ident),
        Token::Call => fail2(n, line[1].0 is Int8 || line[1].0 is Int16 || line[1].0 is Ident),
        Token::Se => fail4(line, line[1].0 is Register, line[3].0 is Int8 || line[3].0
            is Register),
        Token::Sne => fail4(line, line[1].0 is Register, line[3].0 is Int8 || line[3].0
            is Register),
        Token::Mov => fail4(
            line,
            line[1].0 is Register || line[1].0 is IRegister || line[1].0 is DelayTimer || line[1].0
                is SoundTimer,
            (line[1].0 is Register && (line[3].0 is Int8 || line[3].0 is Register || line[3].0
                is DelayTimer)) || (line[1].0 is IRegister && (line[3].0 is Int8 || line[3].0
                is Int16 || line[3].0 is Ident)) || (line[1].0 is DelayTimer && line[3].0
                is Register) || (line[1].0 is SoundTimer && line[3].0 is Register),
        ),
        Token::Add => fail4(
            line,
            line[1].0 is Register || line[1].0 is IRegister,
            (line[1].0 is Register && (line[3].0 is Int8 || line[3].0 is Register)) || (line[1].0
                is IRegister && line[3].0 is Register),
        ),
        Token::Or => fail4(line, line[1].0 is Register, line[3].0 is Register),
        Token::And => fail4(line, line[1].0 is Register, line[3].0 is Register),
        Token::Xor => fail4(line, line[1].0 is Register, line[3].0 is Register),
        Token::Sub => fail4(line, line[1].0 is Register, line[3].0 is Register),
        Token::Subn => fail4(line, line[1].0 is Register, line[3].0 is Register),
        Token::Shr => fail2(n, line[1].0 is Register),
        Token::Shl => fail2(n, line[1].0 is Register),
        Token::Jmpr => fail2(n, line[1].0 is Int8 || line[1].0 is Int16),
        Token::Rnd => fail4(line, line[1].0 is Register, line[3].0 is Int8),
        Token::Drw => {
            if !(n >= 2 && line[1].0 is Register) {
                1
            } else if !(n >= 3 && line[2].0 is Comma) {
                2
            } else if !(n >= 4 && line[3].0 is Register) {
                3
            } else if !(n >= 5 && line[4].0 is Comma) {
                4
            } else if !(n >= 6 && line[5].0 is Int8) {
                5
            } else {
                6
            }
        },
        Token::Skp => fail2(n, line[1].0 is Register),
        Token::Sknp => fail2(n, line[1].0 is Register),
        Token::Wait => fail2(n, line[1].0 is Register),
        Token::Spr => fail2(n, line[1].0 is Register),
        Token::Bcd => fail2(n, line[1].0 is Register),
        Token::Save => fail2(n, line[1].0 is Register),
        Token::Load => fail2(n, line[1].0 is Register),
        _ => 0,
    }
}

// ---------------------------------------------------------------------------
// Whole-program structure
// ---------------------------------------------------------------------------

/// The index of the first `Newline` token at or after `from`, or the length
/// of the stream when there is none.
pub open spec fn first_nl(toks: Seq<(Token, Span)>, from: int) -> int
    decreases toks.len() - from,
{
    if 0 <= from < toks.len() {
        if toks[from].0 is Newline {
            from
        } else {
            first_nl(toks, from + 1)
        }
    } else {
        from
    }
}

/// Whether the token stream from `from` onward parses as a program: a
/// sequence of newline-terminated statement lines and blank lines.
pub open spec fn prog_ok(toks: Seq<(Token, Span)>, from: int) -> bool
    decreases toks.len() - from,
{
    let len = toks.len() as int;
    if !(0 <= from <= len) {
        false
    } else if from == len {
        true
    } else {
        let j = first_nl(toks, from);
        if !(from <= j <= len) {
            false
        } else if j == len {
            false
        } else if j == from {
            prog_ok(toks, from + 1)
        } else {
            line_ok(toks.subrange(from, j)) && prog_ok(toks, j + 1)
        }
    }
}

/// Whether `stmts` is exactly what the token stream from `from` onward parses
/// to, statement by statement in source order.
pub open spec fn prog_matches(toks: Seq<(Token, Span)>, from: int, stmts: Seq<Stmt>) -> bool
    decreases toks.len() - from,
{
    let len = toks.len() as int;
    if !(0 <= from <= len) {
        false
    } else if from == len {
        stmts.len() == 0
    } else {
        let j = first_nl(toks, from);
        if !(from <= j < len) {
            false
        } else if j == from {
            prog_matches(toks, from + 1, stmts)
        } else {
            &&& stmts.len() > 0
            &&& stmt_matches(stmts[0], toks.subrange(from, j))
            &&& prog_matches(toks, j + 1, stmts.drop_first())
        }
    }
}

/// The index of the token the parser reports when the stream fails to parse:
/// the stream's length means the failure is at the end of input. Meaningful
/// only when `!prog_ok(toks, from)`.
pub open spec fn parse_fail_idx(toks: Seq<(Token, Span)>, from: int) -> int
    decreases toks.len() - from,
{
    let len = toks.len() as int;
    if !(0 <= from < len) {
        len
    } else {
        let j = first_nl(toks, from);
        if !(from <= j <= len) {
            len
        } else if j == len {
            if from == j || line_ok(toks.subrange(from, j)) {
                len
            } else {
                from + line_fail_idx(toks.subrange(from, j))
            }
        } else if j == from {
            parse_fail_idx(toks, from + 1)
        } else if line_ok(toks.subrange(from, j)) {
            parse_fail_idx(toks, j + 1)
        } else {
            from + line_fail_idx(toks.subrange(from, j))
        }
    }
}

/// Whether `stmts` is what the lines from `from` up to the line start `to`
/// parse to: the accumulating version of `prog_matches`.
pub open spec fn stmts_tile(
    toks: Seq<(Token, Span)>,
    from: int,
    stmts: Seq<Stmt>,
    to: int,
) -> bool
    decreases to - from,
{
    if from >= to {
        from == to && stmts.len() == 0
    } else {
        let j = first_nl(toks, from);
        if !(from <= j <= toks.len()) {
            false
        } else if j == from {
            stmts_tile(toks, from + 1, stmts, to)
        } else {
            &&& j < to
            &&& stmts.len() > 0
            &&& line_ok(toks.subrange(from, j))
            &&& stmt_matches(stmts[0], toks.subrange(from, j))
            &&& stmts_tile(toks, j + 1, stmts.drop_first(), to)
        }
    }
}

/// Whether two tokens are the same token with the same payload, comparing
/// identifier payloads by contents.
pub open spec fn token_like(a: Token, b: Token) -> bool {
    match a {
        Token::Whitespace => b is Whitespace,
        Token::Newline => b is Newline,
        Token::Comment => b is Comment,
        Token::Comma => b is Comma,
        Token::Colon => b is Colon,
        Token::Dollar => b is Dollar,
        Token::Nop => b is Nop,
        Token::Cls => b is Cls,
        Token::Ret => b is Ret,
        Token::Jmp => b is Jmp,
        Token::Call => b is Call,
        Token::Se => b is Se,
        Token::Sne => b is Sne,
        Token::Mov => b is Mov,
        Token::Add => b is Add,
        Token::Or => b is Or,
        Token::And => b is And,
        Token::Xor => b is Xor,
        Token::Sub => b is Sub,
        Token::Shr => b is Shr,
        Token::Subn => b is Subn,
        Token::Shl => b is Shl,
        Token::Jmpr => b is Jmpr,
        Token::Rnd => b is Rnd,
        Token::Drw => b is Drw,
        Token::Skp => b is Skp,
        Token::Sknp => b is Sknp,
        Token::Wait => b is Wait,
        Token::Spr => b is Spr,
        Token::Bcd => b is Bcd,
        Token::Save => b is Save,
        Token::Load => b is Load,
        Token::Register(x) => b matches Token::Register(y) && x == y,
        Token::Int8(x) => b matches Token::Int8(y) && x == y,
        Token::Int16(x) => b matches Token::Int16(y) && x == y,
        Token::IRegister => b is IRegister,
        Token::DelayTimer => b is DelayTimer,
        Token::SoundTimer => b is SoundTimer,
        Token::Ident(x) => b matches Token::Ident(y) && x@ == y@,
    }
}

/// Copies a token, identifier payload included.
pub fn clone_token(t: &Token) -> (r: Token)
    ensures
        token_like(r, *t),
{
    match t {
        Token::Whitespace => Token::Whitespace,
        Token::Newline => Token::Newline,
        Token::Comment => Token::Comment,
        Token::Comma => Token::Comma,
        Token::Colon => Token::Colon,
        Token::Dollar => Token::Dollar,
        Token::Nop => Token::Nop,
        Token::Cls => Token::Cls,
        Token::Ret => Token::Ret,
        Token::Jmp => Token::Jmp,
        Token::Call => Token::Call,
        Token::Se => Token::Se,
        Token::Sne => Token::Sne,
        Token::Mov => Token::Mov,
        Token::Add => Token::Add,
        Token::Or => Token::Or,
        Token::And => Token::And,
        Token::Xor => Token::Xor,
        Token::Sub => Token::Sub,
        Token::Shr => Token::Shr,
        Token::Subn => Token::Subn,
        Token::Shl => Token::Shl,
        Token::Jmpr => Token::Jmpr,
        Token::Rnd => Token::Rnd,
        Token::Drw => Token::Drw,
        Token::Skp => Token::Skp,
        Token::Sknp => Token::Sknp,
        Token::Wait => Token::Wait,
        Token::Spr => Token::Spr,
        Token::Bcd => Token::Bcd,
        Token::Save => Token::Save,
        Token::Load => Token::Load,
        Token::Register(x) => Token::Register(*x),
        Token::Int8(x) => Token::Int8(*x),
        Token::Int16(x) => Token::Int16(*x),
        Token::IRegister => Token::IRegister,
        Token::DelayTimer => Token::DelayTimer,
        Token::SoundTimer => Token::SoundTimer,
        Token::Ident(x) => Token::Ident(copy_bytes(x)),
    }
}

// ---------------------------------------------------------------------------
// Induction lemmas for accumulating statements line by line
// ---------------------------------------------------------------------------

/// Consuming a blank line extends a statement tiling by one position.
pub proof fn lemma_stmts_tile_blank(
    toks: Seq<(Token, Span)>,
    from0: int,
    stmts: Seq<Stmt>,
    i: int,
)
    requires
        stmts_tile(toks, from0, stmts, i),
        0 <= from0 <= i < toks.len(),
        toks[i].0 is Newline,
    ensures
        stmts_tile(toks, from0, stmts, i + 1),
    decreases i - from0,
{
    if from0 == i {
        assert(first_nl(toks, from0) == from0);
        assert(stmts_tile(toks, from0 + 1, stmts, i + 1));
    } else {
        let j = first_nl(toks, from0);
        if j == from0 {
            lemma_stmts_tile_blank(toks, from0 + 1, stmts, i);
        } else {
            lemma_stmts_tile_blank(toks, j + 1, stmts.drop_first(), i);
        }
    }
}

/// Consuming one statement line (ending at the newline `j`) extends a
/// statement tiling to the next line start `j + 1`.
pub proof fn lemma_stmts_tile_stmt(
    toks: Seq<(Token, Span)>,
    from0: int,
    stmts: Seq<Stmt>,
    from: int,
    s: Stmt,
)
    requires
        stmts_tile(toks, from0, stmts, from),
        0 <= from0 <= from,
        from < first_nl(toks, from) < toks.len(),
        line_ok(toks.subrange(from, first_nl(toks, from))),
        stmt_matches(s, toks.subrange(from, first_nl(toks, from))),
    ensures
        stmts_tile(toks, from0, stmts.push(s), first_nl(toks, from) + 1),
    decreases from - from0,
{
    let j = first_nl(toks, from);
    if from0 == from {
        assert(stmts.push(s)[0] == s);
        assert(stmts.push(s).drop_first() =~= Seq::<Stmt>::empty());
        assert(stmts_tile(toks, j + 1, stmts.push(s).drop_first(), j + 1));
    } else {
        let j0 = first_nl(toks, from0);
        if j0 == from0 {
            lemma_stmts_tile_stmt(toks, from0 + 1, stmts, from, s);
        } else {
            lemma_stmts_tile_stmt(toks, j0 + 1, stmts.drop_first(), from, s);
            assert(stmts.push(s)[0] == stmts[0]);
            assert(stmts.push(s).drop_first() =~= stmts.drop_first().push(s));
        }
    }
}

/// A tiling that reaches the end of the stream is a complete parse.
pub proof fn lemma_stmts_tile_complete(toks: Seq<(Token, Span)>, from: int, stmts: Seq<Stmt>)
    requires
        stmts_tile(toks, from, stmts, toks.len() as int),
        0 <= from <= toks.len(),
    ensures
        prog_matches(toks, from, stmts),
    decreases toks.len() - from,
{
    if from < toks.len() {
        let j = first_nl(toks, from);
        if j == from {
            lemma_stmts_tile_complete(toks, from + 1, stmts);
        } else {
            lemma_stmts_tile_complete(toks, j + 1, stmts.drop_first());
        }
    }
}

// ---------------------------------------------------------------------------
// The parser
// ---------------------------------------------------------------------------

fn is_newline(t: &Token) -> (r: bool)
    ensures
        r == (t is Newline),
{
    match t {
        Token::Newline => true,
        _ => false,
    }
}

/// Parses the two-token shape "mnemonic vX", returning the register index or
/// the relative index of the offending token.
fn parse_reg1(toks: &Vec<(Token, Span)>, from: usize, to: usize) -> (r: Result<u8, usize>)
    requires
        from < to <= toks@.len(),
    ensures
        ({
            let line = toks@.subrange(from as int, to as int);
            &&& (r matches Ok(x) ==> line.len() == 2 && (line[1].0 matches Token::Register(y) && x
                == y))
            &&& (r matches Err(k) ==> !(line.len() == 2 && line[1].0 is Register) && k == fail2(
                line.len() as int,
                line[1].0 is Register,
            ) && k <= to - from)
        }),
{
    let n = to - from;
    if n < 2 {
        return Err(1);
    }
    let x = match &toks[from + 1].0 {
        Token::Register(x) => *x,
        _ => {
            return Err(1);
        },
    };
    if n != 2 {
        return Err(2);
    }
    Ok(x)
}

/// Parses the four-token shape "mnemonic vX, vY".
fn parse_rr(toks: &Vec<(Token, Span)>, from: usize, to: usize) -> (r: Result<(u8, u8), usize>)
    requires
        from < to <= toks@.len(),
    ensures
        ({
            let line = toks@.subrange(from as int, to as int);
            &&& (r matches Ok(p) ==> line.len() == 4 && (line[1].0 matches Token::Register(a)
                && p.0 == a) && line[2].0 is Comma && (line[3].0 matches Token::Register(b) && p.1
                == b))
            &&& (r matches Err(k) ==> !(line.len() == 4 && line[1].0 is Register && line[2].0
                is Comma && line[3].0 is Register) && k == fail4(
                line,
                line[1].0 is Register,
                line[3].0 is Register,
            ) && k <= to - from)
        }),
{
    let n = to - from;
    if n < 2 {
        return Err(1);
    }
    let x = match &toks[from + 1].0 {
        Token::Register(x) => *x,
        _ => {
            return Err(1);
        },
    };
    if n < 3 {
        return Err(2);
    }
    match &toks[from + 2].0 {
        Token::Comma => {},
        _ => {
            return Err(2);
        },
    }
    if n < 4 {
        return Err(3);
    }
    let y = match &toks[from + 3].0 {
        Token::Register(y) => *y,
        _ => {
            return Err(3);
        },
    };
    if n != 4 {
        return Err(4);
    }
    Ok((x, y))
}

/// Parses the four-token shape "mnemonic vX, nn" with an 8-bit immediate.
fn parse_rint8(toks: &Vec<(Token, Span)>, from: usize, to: usize) -> (r: Result<(u8, u8), usize>)
    requires
        from < to <= toks@.len(),
    ensures
        ({
            let line = toks@.subrange(from as int, to as int);
            &&& (r matches Ok(p) ==> line.len() == 4 && (line[1].0 matches Token::Register(a)
                && p.0 == a) && line[2].0 is Comma && (line[3].0 matches Token::Int8(b) && p.1
                == b))
            &&& (r matches Err(k) ==> !(line.len() == 4 && line[1].0 is Register && line[2].0
                is Comma && line[3].0 is Int8) && k == fail4(
                line,
                line[1].0 is Register,
                line[3].0 is Int8,
            ) && k <= to - from)
        }),
{
    let n = to - from;
    if n < 2 {
        return Err(1);
    }
    let x = match &toks[from + 1].0 {
        Token::Register(x) => *x,
        _ => {
            return Err(1);
        },
    };
    if n < 3 {
        return Err(2);
    }
    match &toks[from + 2].0 {
        Token::Comma => {},
        _ => {
            return Err(2);
        },
    }
    if n < 4 {
        return Err(3);
    }
    let nn = match &toks[from + 3].0 {
        Token::Int8(b) => *b,
        _ => {
            return Err(3);
        },
    };
    if n != 4 {
        return Err(4);
    }
    Ok((x, nn))
}

/// Parses one statement from the token line `toks[from..to)` (the terminating
/// newline excluded). On failure returns the offending token's index relative
/// to `from`; an index of `to - from` points at the line's terminator.
#[verifier::loop_isolation(false)]
fn parse_line(toks: &Vec<(Token, Span)>, from: usize, to: usize) -> (r: Result<Stmt, usize>)
    requires
        from < to <= toks@.len(),
    ensures
        ({
            let line = toks@.subrange(from as int, to as int);
            &&& (r matches Ok(s) ==> line_ok(line) && stmt_matches(s, line))
            &&& (r matches Err(k) ==> !line_ok(line) && k == line_fail_idx(line) && k <= to - from)
        }),
{
    let ghost line = toks@.subrange(from as int, to as int);
    proof {
        assert forall|m: int| 0 <= m < line.len() implies #[trigger] line[m] == toks@[from + m]
            by {}
    }
    let n = to - from;
    let span = Span { lo: toks[from].1.lo, hi: toks[to - 1].1.hi };
    let node: Stmt_ = match &toks[from].0 {
        Token::Dollar => {
            if n < 2 {
                return Err(1);
            }
            let id: Vec<u8> = match &toks[from + 1].0 {
                Token::Ident(v) => copy_bytes(v),
                _ => {
                    return Err(1);
                },
            };
            let mut data: Vec<u8> = Vec::new();
            let mut k: usize = from + 2;
            while k < to
                invariant
                    from + 2 <= k <= to <= toks@.len(),
                    line == toks@.subrange(from as int, to as int),
                    data@.len() == k - (from + 2),
                    forall|m: int|
                        0 <= m < data@.len() ==> (#[trigger] line[m + 2].0 matches Token::Int8(b)
                            && data@[m] == b),
                    first_non_int8(line, 2) == first_non_int8(line, k - from as int),
                decreases to - k,
            {
                match &toks[k].0 {
                    Token::Int8(b) => {
                        data.push(*b);
                    },
                    _ => {
                        proof {
                            assert(line[k - from as int].0 == toks@[k as int].0);
                            assert(first_non_int8(line, k - from as int) == k - from as int);
                        }
                        return Err(k - from);
                    },
                }
                proof {
                    assert(line[k - from as int].0 == toks@[k as int].0);
                }
                k += 1;
            }
            proof {
                assert forall|k2: int| 2 <= k2 < line.len() implies #[trigger] line[k2].0
                    is Int8 by {
                    assert(line[(k2 - 2) + 2].0 matches Token::Int8(b) && data@[k2 - 2] == b);
                }
            }
            Stmt_::DeclareSprite(id, data)
        },
        Token::Ident(v) => {
            if n < 2 {
                return Err(1);
            }
            match &toks[from + 1].0 {
                Token::Colon => {},
                _ => {
                    return Err(1);
                },
            }
            if n != 2 {
                return Err(2);
            }
            Stmt_::DeclareLabel(copy_bytes(v))
        },
        Token::Nop => {
            if n != 1 {
                return Err(1);
            }
            Stmt_::Nop
        },
        Token::Cls => {
            if n != 1 {
                return Err(1);
            }
            Stmt_::Clear
        },
        Token::Ret => {
            if n != 1 {
                return Err(1);
            }
            Stmt_::Return
        },
        Token::Jmp => {
            if n < 2 {
                return Err(1);
            }
            let node = match &toks[from + 1].0 {
                Token::Int8(b) => Stmt_::JumpInteger(*b as u16),
                Token::Int16(w) => Stmt_::JumpInteger(*w),
                Token::Ident(v) => Stmt_::JumpLabel(copy_bytes(v)),
                _ => {
                    return Err(1);
                },
            };
            if n != 2 {
                return Err(2);
            }
            node
        },
        Token::Call => {
            if n < 2 {
                return Err(1);
            }
            let node = match &toks[from + 1].0 {
                Token::Int8(b) => Stmt_::CallInteger(*b as u16),
                Token::Int16(w) => Stmt_::CallInteger(*w),
                Token::Ident(v) => Stmt_::CallLabel(copy_bytes(v)),
                _ => {
                    return Err(1);
                },
            };
            if n != 2 {
                return Err(2);
            }
            node
        },
        Token::Se => {
            if n < 2 {
                return Err(1);
            }
            let x = match &toks[from + 1].0 {
                Token::Register(x) => *x,
                _ => {
                    return Err(1);
                },
            };
            if n < 3 {
                return Err(2);
            }
            match &toks[from + 2].0 {
                Token::Comma => {},
                _ => {
                    return Err(2);
                },
            }
            if n < 4 {
                return Err(3);
            }
            let node = match &toks[from + 3].0 {
                Token::Int8(b) => Stmt_::SkipEqualsInteger(x, *b),
                Token::Register(y) => Stmt_::SkipEqualsRegister(x, *y),
                _ => {
                    return Err(3);
                },
            };
            if n != 4 {
                return Err(4);
            }
            node
        },
        Token::Sne => {
            if n < 2 {
                return Err(1);
            }
            let x = match &toks[from + 1].0 {
                Token::Register(x) => *x,
                _ => {
                    return Err(1);
                },
            };
            if n < 3 {
                return Err(2);
            }
            match &toks[from + 2].0 {
                Token::Comma => {},
                _ => {
                    return Err(2);
                },
            }
            if n < 4 {
                return Err(3);
            }
            let node = match &toks[from + 3].0 {
                Token::Int8(b) => Stmt_::SkipNotEqualsInteger(x, *b),
                Token::Register(y) => Stmt_::SkipNotEqualsRegister(x, *y),
                _ => {
                    return Err(3);
                },
            };
            if n != 4 {
                return Err(4);
            }
            node
        },
        Token::Mov => {
            if n < 2 {
                return Err(1);
            }
            let node = match &toks[from + 1].0 {
                Token::Register(x) => {
                    let x = *x;
                    if n < 3 {
                        return Err(2);
                    }
                    match &toks[from + 2].0 {
                        Token::Comma => {},
                        _ => {
                            return Err(2);
                        },
                    }
                    if n < 4 {
                        return Err(3);
                    }
                    match &toks[from + 3].0 {
                        Token::Int8(b) => Stmt_::MoveRegisterInteger(x, *b),
                        Token::Register(y) => Stmt_::MoveRegisterRegister(x, *y),
                        Token::DelayTimer => Stmt_::MoveRegisterDelay(x),
                        _ => {
                            return Err(3);
                        },
                    }
                },
                Token::IRegister => {
                    if n < 3 {
                        return Err(2);
                    }
                    match &toks[from + 2].0 {
                        Token::Comma => {},
                        _ => {
                            return Err(2);
                        },
                    }
                    if n < 4 {
                        return Err(3);
                    }
                    match &toks[from + 3].0 {
                        Token::Int8(b) => Stmt_::MoveIRegisterInteger(*b as u16),
                        Token::Int16(w) => Stmt_::MoveIRegisterInteger(*w),
                        Token::Ident(v) => Stmt_::MoveIRegisterSprite(copy_bytes(v)),
                        _ => {
                            return Err(3);
                        },
                    }
                },
                Token::DelayTimer => {
                    if n < 3 {
                        return Err(2);
                    }
                    match &toks[from + 2].0 {
                        Token::Comma => {},
                        _ => {
                            return Err(2);
                        },
                    }
                    if n < 4 {
                        return Err(3);
                    }
                    match &toks[from + 3].0 {
                        Token::Register(x) => Stmt_::MoveDelayRegister(*x),
                        _ => {
                            return Err(3);
                        },
                    }
                },
                Token::SoundTimer => {
                    if n < 3 {
                        return Err(2);
                    }
                    match &toks[from + 2].0 {
                        Token::Comma => {},
                        _ => {
                            return Err(2);
                        },
                    }
                    if n < 4 {
                        return Err(3);
                    }
                    match &toks[from + 3].0 {
                        Token::Register(x) => Stmt_::MoveSoundRegister(*x),
                        _ => {
                            return Err(3);
                        },
                    }
                },
                _ => {
                    return Err(1);
                },
            };
            if n != 4 {
                return Err(4);
            }
            node
        },
        Token::Add => {
            if n < 2 {
                return Err(1);
            }
            let node = match &toks[from + 1].0 {
                Token::Register(x) => {
                    let x = *x;
                    if n < 3 {
                        return Err(2);
                    }
                    match &toks[from + 2].0 {
                        Token::Comma => {},
                        _ => {
                            return Err(2);
                        },
                    }
                    if n < 4 {
                        return Err(3);
                    }
                    match &toks[from + 3].0 {
                        Token::Int8(b) => Stmt_::AddRegisterInteger(x, *b),
                        Token::Register(y) => Stmt_::AddRegisterRegister(x, *y),
                        _ => {
                            return Err(3);
                        },
                    }
                },
                Token::IRegister => {
                    if n < 3 {
                        return Err(2);
                    }
                    match &toks[from + 2].0 {
                        Token::Comma => {},
                        _ => {
                            return Err(2);
                        },
                    }
                    if n < 4 {
                        return Err(3);
                    }
                    match &toks[from + 3].0 {
                        Token::Register(x) => Stmt_::AddIRegisterRegister(*x),
                        _ => {
                            return Err(3);
                        },
                    }
                },
                _ => {
                    return Err(1);
                },
            };
            if n != 4 {
                return Err(4);
            }
            node
        },
        Token::Or => {
            match parse_rr(toks, from, to) {
                Ok((x, y)) => Stmt_::Or(x, y),
                Err(k) => {
                    return Err(k);
                },
            }
        },
        Token::And => {
            match parse_rr(toks, from, to) {
                Ok((x, y)) => Stmt_::And(x, y),
                Err(k) => {
                    return Err(k);
                },
            }
        },
        Token::Xor => {
            match parse_rr(toks, from, to) {
                Ok((x, y)) => Stmt_::Xor(x, y),
                Err(k) => {
                    return Err(k);
                },
            }
        },
        Token::Sub => {
            match parse_rr(toks, from, to) {
                Ok((x, y)) => Stmt_::Subtract(x, y),
                Err(k) => {
                    return Err(k);
                },
            }
        },
        Token::Subn => {
            match parse_rr(toks, from, to) {
                Ok((x, y)) => Stmt_::SubtractReverse(x, y),
                Err(k) => {
                    return Err(k);
                },
            }
        },
        Token::Shr => {
            match parse_reg1(toks, from, to) {
                Ok(x) => Stmt_::ShiftRight(x),
                Err(k) => {
                    return Err(k);
                },
            }
        },
        Token::Shl => {
            match parse_reg1(toks, from, to) {
                Ok(x) => Stmt_::ShiftLeft(x),
                Err(k) => {
                    return Err(k);
                },
            }
        },
        Token::Jmpr => {
            if n < 2 {
                return Err(1);
            }
            let node = match &toks[from + 1].0 {
                Token::Int8(b) => Stmt_::JumpRegister(*b as u16),
                Token::Int16(w) => Stmt_::JumpRegister(*w),
                _ => {
                    return Err(1);
                },
            };
            if n != 2 {
                return Err(2);
            }
            node
        },
        Token::Rnd => {
            match parse_rint8(toks, from, to) {
                Ok((x, nn)) => Stmt_::Random(x, nn),
                Err(k) => {
                    return Err(k);
                },
            }
        },
        Token::Drw => {
            if n < 2 {
                return Err(1);
            }
            let x = match &toks[from + 1].0 {
                Token::Register(x) => *x,
                _ => {
                    return Err(1);
                },
            };
            if n < 3 {
                return Err(2);
            }
            match &toks[from + 2].0 {
                Token::Comma => {},
                _ => {
                    return Err(2);
                },
            }
            if n < 4 {
                return Err(3);
            }
            let y = match &toks[from + 3].0 {
                Token::Register(y) => *y,
                _ => {
                    return Err(3);
                },
            };
            if n < 5 {
                return Err(4);
            }
            match &toks[from + 4].0 {
                Token::Comma => {},
                _ => {
                    return Err(4);
                },
            }
            if n < 6 {
                return Err(5);
            }
            let d = match &toks[from + 5].0 {
                Token::Int8(b) => *b,
                _ => {
                    return Err(5);
                },
            };
            if n != 6 {
                return Err(6);
            }
            Stmt_::Draw(x, y, d)
        },
        Token::Skp => {
            match parse_reg1(toks, from, to) {
                Ok(x) => Stmt_::SkipKeyPressed(x),
                Err(k) => {
                    return Err(k);
                },
            }
        },
        Token::Sknp => {
            match parse_reg1(toks, from, to) {
                Ok(x) => Stmt_::SkipKeyNotPressed(x),
                Err(k) => {
                    return Err(k);
                },
            }
        },
        Token::Wait => {
            match parse_reg1(toks, from, to) {
                Ok(x) => Stmt_::WaitKeyPress(x),
                Err(k) => {
                    return Err(k);
                },
            }
        },
        Token::Spr => {
            match parse_reg1(toks, from, to) {
                Ok(x) => Stmt_::Sprite(x),
                Err(k) => {
                    return Err(k);
                },
            }
        },
        Token::Bcd => {
            match parse_reg1(toks, from, to) {
                Ok(x) => Stmt_::Bcd(x),
                Err(k) => {
                    return Err(k);
                },
            }
        },
        Token::Save => {
            match parse_reg1(toks, from, to) {
                Ok(x) => Stmt_::Save(x),
                Err(k) => {
                    return Err(k);
                },
            }
        },
        Token::Load => {
            match parse_reg1(toks, from, to) {
                Ok(x) => Stmt_::Load(x),
                Err(k) => {
                    return Err(k);
                },
            }
        },
        _ => {
            return Err(0);
        },
    };
    Ok(Stmt { span, node })
}

/// Parses a token stream into a `Program`. On failure, the error carries the
/// first unexpected token with its span, or `None` when the input ended
/// where a token was required, together with a message.
pub fn parse(tokens: &Vec<(Token, Span)>) -> (r: Result<
    Program,
    (Option<(Token, Span)>, &'static str),
>)
    ensures
        r matches Ok(p) ==> prog_ok(tokens@, 0) && prog_matches(tokens@, 0, p.statements@),
        r matches Err(e) ==> !prog_ok(tokens@, 0) && ({
            let k = parse_fail_idx(tokens@, 0);
            &&& (k < tokens@.len() ==> (e.0 matches Some(pair) && token_like(pair.0, tokens@[k].0)
                && pair.1 == tokens@[k].1))
            &&& (k >= tokens@.len() ==> e.0 is None)
        }),
{
    let len = tokens.len();
    let mut stmts: Vec<Stmt> = Vec::new();
    let mut i: usize = 0;
    while i < len
        invariant
            i <= len,
            len == tokens@.len(),
            stmts_tile(tokens@, 0, stmts@, i as int),
            prog_ok(tokens@, 0) == prog_ok(tokens@, i as int),
            !prog_ok(tokens@, i as int) ==> parse_fail_idx(tokens@, 0) == parse_fail_idx(
                tokens@,
                i as int,
            ),
        decreases len - i,
    {
        if is_newline(&tokens[i].0) {
            proof {
                assert(first_nl(tokens@, i as int) == i as int);
                lemma_stmts_tile_blank(tokens@, 0, stmts@, i as int);
            }
            i += 1;
            continue;
        }
        // Find the newline that terminates this line.
        let mut j: usize = i;
        while j < len && !is_newline(&tokens[j].0)
            invariant
                i <= j <= len,
                len == tokens@.len(),
                first_nl(tokens@, i as int) == first_nl(tokens@, j as int),
            decreases len - j,
        {
            j += 1;
        }
        proof {
            assert(first_nl(tokens@, j as int) == j as int);
        }
        match parse_line(tokens, i, j) {
            Ok(s) => {
                if j == len {
                    // The last line misses its terminating newline.
                    return Err((None, "unexpected end of input, expected a newline"));
                }
                proof {
                    lemma_stmts_tile_stmt(tokens@, 0, stmts@, i as int, s);
                }
                stmts.push(s);
                i = j + 1;
            },
            Err(k) => {
                let g = i + k;
                if g < len {
                    return Err(
                        (
                            Some((clone_token(&tokens[g].0), tokens[g].1)),
                            "unexpected token in statement",
                        ),
                    );
                } else {
                    return Err((None, "unexpected end of input in statement"));
                }
            },
        }
    }
    proof {
        lemma_stmts_tile_complete(tokens@, 0, stmts@);
    }
    Ok(Program { statements: stmts })
}

} // verus!
