//! The lexer: turns source bytes into a sequence of `(Token, Span)` pairs.
//!
//! Tokenization is longest-match over a fixed rule set. Whitespace and
//! comments (`#` to end of line) are consumed but never appear in the output
//! stream; newlines are emitted because the grammar terminates statements on
//! them. Mnemonic keywords are matched case-sensitively and win over
//! identifiers; integer literals are bucketed to `Int8` when their value is
//! at most 255 and to `Int16` otherwise, whatever their written form.
use vstd::prelude::*;

use crate::copy_bytes;

verus! {

/// A lexical token. `Whitespace` and `Comment` exist as categories of the
/// grammar but are suppressed from the token stream handed to the parser.
#[derive(Debug, Clone, PartialEq, Eq)]
pub enum Token {
    Whitespace,
    Newline,
    Comment,
    Comma,
    Colon,
    Dollar,
    Nop,
    Cls,
    Ret,
    Jmp,
    Call,
    Se,
    Sne,
    Mov,
    Add,
    Or,
    And,
    Xor,
    Sub,
    Shr,
    Subn,
    Shl,
    Jmpr,
    Rnd,
    Drw,
    Skp,
    Sknp,
    Wait,
    Spr,
    Bcd,
    Save,
    Load,
    Register(u8),
    Int8(u8),
    Int16(u16),
    IRegister,
    DelayTimer,
    SoundTimer,
    Ident(Vec<u8>),
}

/// A half-open byte interval `[lo, hi)` into the source buffer.
#[derive(Debug, Clone, Copy, PartialEq, Eq, Structural)]
pub struct Span {
    pub lo: usize,
    pub hi: usize,
}

/// Why the lexer rejected the input.
#[derive(Debug, Clone, Copy, PartialEq, Eq, Structural)]
pub enum LexErrorKind {
    /// A byte that cannot start any token.
    InvalidChar,
    /// An integer literal whose value exceeds 16 bits.
    IntTooLarge,
    /// A register index greater than 15.
    BadRegister,
}

/// A fatal lexical error at byte offset `pos`.
#[derive(Debug, Clone, Copy, PartialEq, Eq, Structural)]
pub struct LexError {
    pub pos: usize,
    pub kind: LexErrorKind,
}

// ---------------------------------------------------------------------------
// Byte classes
// ---------------------------------------------------------------------------

/// Whitespace other than newline: space, carriage return, tab.
pub open spec fn is_ws(b: u8) -> bool {
    b == 32 || b == 13 || b == 9
}

/// An ASCII decimal digit.
pub open spec fn is_digit(b: u8) -> bool {
    48 <= b <= 57
}

/// A hexadecimal digit, either case.
pub open spec fn is_hex_digit(b: u8) -> bool {
    is_digit(b) || (97 <= b <= 102) || (65 <= b <= 70)
}

/// A byte of the identifier class: ASCII letters and underscore.
pub open spec fn is_alpha(b: u8) -> bool {
    (65 <= b <= 90) || (97 <= b <= 122) || b == 95
}

/// The numeric value of one digit, where letters count from ten.
pub open spec fn digit_value(b: u8) -> int {
    if is_digit(b) {
        b - 48
    } else if 97 <= b <= 102 {
        b - 87
    } else {
        b - 55
    }
}

// ---------------------------------------------------------------------------
// The deterministic scan, as specification functions
// ---------------------------------------------------------------------------

/// The offset just past a comment starting before `pos`: the next newline,
/// or the end of the source.
pub open spec fn comment_end(src: Seq<u8>, pos: int) -> int
    decreases src.len() - pos,
{
    if pos < src.len() {
        if src[pos] == 10 {
            pos
        } else {
            comment_end(src, pos + 1)
        }
    } else {
        src.len() as int
    }
}

/// The first offset at or after `pos` that is neither whitespace nor inside
/// a comment. Newlines stop the skip: they are tokens.
pub open spec fn skip_ws(src: Seq<u8>, pos: int) -> int
    decreases src.len() - pos,
{
    if 0 <= pos < src.len() {
        if is_ws(src[pos]) {
            skip_ws(src, pos + 1)
        } else if src[pos] == 35 {
            if pos < comment_end(src, pos + 1) <= src.len() {
                skip_ws(src, comment_end(src, pos + 1))
            } else {
                pos
            }
        } else {
            pos
        }
    } else {
        pos
    }
}

/// The end of the maximal identifier-class run starting at `pos`.
pub open spec fn alpha_end(src: Seq<u8>, pos: int) -> int
    decreases src.len() - pos,
{
    if 0 <= pos < src.len() && is_alpha(src[pos]) {
        alpha_end(src, pos + 1)
    } else {
        pos
    }
}

/// The end of the maximal decimal-digit run starting at `pos`.
pub open spec fn digit_end(src: Seq<u8>, pos: int) -> int
    decreases src.len() - pos,
{
    if 0 <= pos < src.len() && is_digit(src[pos]) {
        digit_end(src, pos + 1)
    } else {
        pos
    }
}

/// The end of the maximal hexadecimal-digit run starting at `pos`.
pub open spec fn hex_digit_end(src: Seq<u8>, pos: int) -> int
    decreases src.len() - pos,
{
    if 0 <= pos < src.len() && is_hex_digit(src[pos]) {
        hex_digit_end(src, pos + 1)
    } else {
        pos
    }
}

/// The value of the digit run `src[lo..hi)` in the given base.
pub open spec fn run_value(src: Seq<u8>, lo: int, hi: int, base: int) -> int
    decreases hi - lo,
{
    if lo < hi {
        run_value(src, lo, hi - 1, base) * base + digit_value(src[hi - 1])
    } else {
        0
    }
}

/// Whether the bytes at `pos` spell a hexadecimal literal: `0x` followed by
/// at least one lowercase hex digit.
pub open spec fn is_hex_start(src: Seq<u8>, pos: int) -> bool {
    &&& 0 <= pos
    &&& pos + 2 < src.len()
    &&& src[pos] == 48
    &&& src[pos + 1] == 120
    &&& is_hex_digit(src[pos + 2])
}

/// Whether the bytes at `pos` spell a register: `v` followed by a digit.
pub open spec fn is_reg_start(src: Seq<u8>, pos: int) -> bool {
    &&& 0 <= pos
    &&& pos + 1 < src.len()
    &&& src[pos] == 118
    &&& is_digit(src[pos + 1])
}

/// The end of a register token at `pos`: `v`, one digit, and a second digit
/// only when it lies in `0..=5` (mirroring the longest match of the rule).
pub open spec fn reg_end(src: Seq<u8>, pos: int) -> int {
    if pos + 2 < src.len() && 48 <= src[pos + 2] <= 53 {
        pos + 3
    } else {
        pos + 2
    }
}

/// The register index spelled by the register token at `pos`.
pub open spec fn reg_value(src: Seq<u8>, pos: int) -> int {
    run_value(src, pos + 1, reg_end(src, pos), 10)
}

/// The end of the integer literal starting at `pos` (hex or decimal).
pub open spec fn num_end(src: Seq<u8>, pos: int) -> int {
    if is_hex_start(src, pos) {
        hex_digit_end(src, pos + 2)
    } else {
        digit_end(src, pos)
    }
}

/// The value of the integer literal starting at `pos`.
pub open spec fn num_value(src: Seq<u8>, pos: int) -> int {
    if is_hex_start(src, pos) {
        run_value(src, pos + 2, hex_digit_end(src, pos + 2), 16)
    } else {
        run_value(src, pos, digit_end(src, pos), 10)
    }
}

/// The end of the token starting at `pos`, or -1 when no rule matches the
/// byte there. Values out of range are judged separately by `scan_ok`.
pub open spec fn scan_end(src: Seq<u8>, pos: int) -> int {
    if !(0 <= pos < src.len()) {
        -1
    } else if src[pos] == 10 || src[pos] == 44 || src[pos] == 58 || src[pos] == 36 {
        pos + 1
    } else if is_digit(src[pos]) {
        num_end(src, pos)
    } else if is_reg_start(src, pos) {
        reg_end(src, pos)
    } else if is_alpha(src[pos]) {
        alpha_end(src, pos)
    } else {
        -1
    }
}

/// Whether scanning one token at `pos` succeeds.
pub open spec fn scan_ok(src: Seq<u8>, pos: int) -> bool {
    &&& 0 <= pos < src.len()
    &&& scan_end(src, pos) >= 0
    &&& (is_digit(src[pos]) ==> num_value(src, pos) <= 0xFFFF)
    &&& (is_reg_start(src, pos) ==> reg_value(src, pos) <= 15)
}

/// The error reported when scanning at `pos` fails.
pub open spec fn scan_err_kind(src: Seq<u8>, pos: int) -> LexErrorKind {
    if scan_end(src, pos) < 0 {
        LexErrorKind::InvalidChar
    } else if 0 <= pos < src.len() && is_digit(src[pos]) && num_value(src, pos) > 0xFFFF {
        LexErrorKind::IntTooLarge
    } else {
        LexErrorKind::BadRegister
    }
}

// ---------------------------------------------------------------------------
// Token classification
// ---------------------------------------------------------------------------

/// The byte spelling of each mnemonic keyword.
pub open spec fn keyword_bytes(t: Token) -> Seq<u8> {
    match t {
        Token::Nop => seq![110u8, 111u8, 112u8],
        Token::Cls => seq![99u8, 108u8, 115u8],
        Token::Ret => seq![114u8, 101u8, 116u8],
        Token::Jmp => seq![106u8, 109u8, 112u8],
        Token::Call => seq![99u8, 97u8, 108u8, 108u8],
        Token::Se => seq![115u8, 101u8],
        Token::Sne => seq![115u8, 110u8, 101u8],
        Token::Mov => seq![109u8, 111u8, 118u8],
        Token::Add => seq![97u8, 100u8, 100u8],
        Token::Or => seq![111u8, 114u8],
        Token::And => seq![97u8, 110u8, 100u8],
        Token::Xor => seq![120u8, 111u8, 114u8],
        Token::Sub => seq![115u8, 117u8, 98u8],
        Token::Shr => seq![115u8, 104u8, 114u8],
        Token::Subn => seq![115u8, 117u8, 98u8, 110u8],
        Token::Shl => seq![115u8, 104u8, 108u8],
        Token::Jmpr => seq![106u8, 109u8, 112u8, 114u8],
        Token::Rnd => seq![114u8, 110u8, 100u8],
        Token::Drw => seq![100u8, 114u8, 119u8],
        Token::Skp => seq![115u8, 107u8, 112u8],
        Token::Sknp => seq![115u8, 107u8, 110u8, 112u8],
        Token::Wait => seq![119u8, 97u8, 105u8, 116u8],
        Token::Spr => seq![115u8, 112u8, 114u8],
        Token::Bcd => seq![98u8, 99u8, 100u8],
        Token::Save => seq![115u8, 97u8, 118u8, 101u8],
        Token::Load => seq![108u8, 111u8, 97u8, 100u8],
        Token::IRegister => seq![105u8],
        Token::DelayTimer => seq![100u8, 116u8],
        Token::SoundTimer => seq![115u8, 116u8],
        _ => seq![],
    }
}

/// Whether `t` is one of the tokens spelled as a fixed word: the mnemonic
/// keywords and the register names `i`, `dt`, `st`.
pub open spec fn is_word_token(t: Token) -> bool {
    keyword_bytes(t).len() > 0
}

/// Whether the identifier-class run `run` is reserved as a word token.
pub open spec fn is_reserved(run: Seq<u8>) -> bool {
    ||| run == keyword_bytes(Token::Nop)
    ||| run == keyword_bytes(Token::Cls)
    ||| run == keyword_bytes(Token::Ret)
    ||| run == keyword_bytes(Token::Jmp)
    ||| run == keyword_bytes(Token::Call)
    ||| run == keyword_bytes(Token::Se)
    ||| run == keyword_bytes(Token::Sne)
    ||| run == keyword_bytes(Token::Mov)
    ||| run == keyword_bytes(Token::Add)
    ||| run == keyword_bytes(Token::Or)
    ||| run == keyword_bytes(Token::And)
    ||| run == keyword_bytes(Token::Xor)
    ||| run == keyword_bytes(Token::Sub)
    ||| run == keyword_bytes(Token::Shr)
    ||| run == keyword_bytes(Token::Subn)
    ||| run == keyword_bytes(Token::Shl)
    ||| run == keyword_bytes(Token::Jmpr)
    ||| run == keyword_bytes(Token::Rnd)
    ||| run == keyword_bytes(Token::Drw)
    ||| run == keyword_bytes(Token::Skp)
    ||| run == keyword_bytes(Token::Sknp)
    ||| run == keyword_bytes(Token::Wait)
    ||| run == keyword_bytes(Token::Spr)
    ||| run == keyword_bytes(Token::Bcd)
    ||| run == keyword_bytes(Token::Save)
    ||| run == keyword_bytes(Token::Load)
    ||| run == keyword_bytes(Token::IRegister)
    ||| run == keyword_bytes(Token::DelayTimer)
    ||| run == keyword_bytes(Token::SoundTimer)
}

/// Whether an identifier-class run occupies exactly `[pos, hi)`: nonempty,
/// all bytes of the class, and maximal on both sides of `hi`.
pub open spec fn alpha_run_at(src: Seq<u8>, pos: int, hi: int) -> bool {
    &&& 0 <= pos < hi <= src.len()
    &&& (forall|k: int| pos <= k < hi ==> is_alpha(src[k]))
    &&& (hi == src.len() || !is_alpha(src[hi]))
}

/// Whether token `t` is what the scan at `pos` produces, ending at `hi`.
/// `Whitespace` and `Comment` never appear in the output stream, so no
/// position matches them.
pub open spec fn token_at(src: Seq<u8>, pos: int, t: Token, hi: int) -> bool {
    match t {
        Token::Whitespace => false,
        Token::Comment => false,
        Token::Newline => 0 <= pos < src.len() && src[pos] == 10 && hi == pos + 1,
        Token::Comma => 0 <= pos < src.len() && src[pos] == 44 && hi == pos + 1,
        Token::Colon => 0 <= pos < src.len() && src[pos] == 58 && hi == pos + 1,
        Token::Dollar => 0 <= pos < src.len() && src[pos] == 36 && hi == pos + 1,
        Token::Int8(n) => {
            &&& 0 <= pos < src.len()
            &&& is_digit(src[pos])
            &&& hi == num_end(src, pos)
            &&& num_value(src, pos) <= 255
            &&& n == num_value(src, pos)
        },
        Token::Int16(n) => {
            &&& 0 <= pos < src.len()
            &&& is_digit(src[pos])
            &&& hi == num_end(src, pos)
            &&& 256 <= num_value(src, pos) <= 0xFFFF
            &&& n == num_value(src, pos)
        },
        Token::Register(x) => {
            &&& is_reg_start(src, pos)
            &&& hi == reg_end(src, pos)
            &&& reg_value(src, pos) <= 15
            &&& x == reg_value(src, pos)
        },
        Token::Ident(id) => {
            &&& alpha_run_at(src, pos, hi)
            &&& !is_digit(src[pos])
            &&& !is_reg_start(src, pos)
            &&& id@ == src.subrange(pos, hi)
            &&& !is_reserved(src.subrange(pos, hi))
        },
        _ => {
            &&& alpha_run_at(src, pos, hi)
            &&& !is_digit(src[pos])
            &&& !is_reg_start(src, pos)
            &&& src.subrange(pos, hi) == keyword_bytes(t)
        },
    }
}

// ---------------------------------------------------------------------------
// The whole-input scan
// ---------------------------------------------------------------------------

/// Whether the entire source from `pos` onward scans without error.
pub open spec fn lexable(src: Seq<u8>, pos: int) -> bool
    decreases src.len() - pos,
{
    if 0 <= pos <= src.len() {
        let p = skip_ws(src, pos);
        if p == src.len() {
            true
        } else if pos <= p && scan_ok(src, p) && p < scan_end(src, p) <= src.len() {
            lexable(src, scan_end(src, p))
        } else {
            false
        }
    } else {
        false
    }
}

/// The offset of the first scan failure, meaningful when `!lexable`.
pub open spec fn lex_fail_pos(src: Seq<u8>, pos: int) -> int
    decreases src.len() - pos,
{
    if 0 <= pos <= src.len() {
        let p = skip_ws(src, pos);
        if p == src.len() {
            p
        } else if pos <= p && scan_ok(src, p) && p < scan_end(src, p) <= src.len() {
            lex_fail_pos(src, scan_end(src, p))
        } else {
            p
        }
    } else {
        pos
    }
}

/// Whether `toks` is exactly the token stream of `src[pos..]`: each token
/// sits at the next scan position, and the stream reaches the end of input.
pub open spec fn tokens_match(src: Seq<u8>, pos: int, toks: Seq<(Token, Span)>) -> bool
    decreases toks.len(),
{
    let p = skip_ws(src, pos);
    if toks.len() == 0 {
        p == src.len()
    } else {
        let (t, sp) = toks[0];
        &&& sp.lo == p
        &&& token_at(src, p, t, sp.hi as int)
        &&& tokens_match(src, sp.hi as int, toks.drop_first())
    }
}

/// Whether `toks` tiles `src` from offset `from` up to offset `to`: like
/// `tokens_match`, but stopping at `to` instead of demanding the end of input.
pub open spec fn tiles(src: Seq<u8>, from: int, toks: Seq<(Token, Span)>, to: int) -> bool
    decreases toks.len(),
{
    if toks.len() == 0 {
        to == from
    } else {
        let (t, sp) = toks[0];
        &&& sp.lo == skip_ws(src, from)
        &&& token_at(src, sp.lo as int, t, sp.hi as int)
        &&& sp.lo < sp.hi <= src.len()
        &&& tiles(src, sp.hi as int, toks.drop_first(), to)
    }
}

// ---------------------------------------------------------------------------
// Bounds and induction lemmas for the scan
// ---------------------------------------------------------------------------

pub proof fn lemma_comment_end_bounds(src: Seq<u8>, pos: int)
    requires
        0 <= pos <= src.len(),
    ensures
        pos <= comment_end(src, pos) <= src.len(),
    decreases src.len() - pos,
{
    if pos < src.len() && src[pos] != 10 {
        lemma_comment_end_bounds(src, pos + 1);
    }
}

pub proof fn lemma_skip_ws_bounds(src: Seq<u8>, pos: int)
    requires
        0 <= pos <= src.len(),
    ensures
        pos <= skip_ws(src, pos) <= src.len(),
    decreases src.len() - pos,
{
    if pos < src.len() {
        if is_ws(src[pos]) {
            lemma_skip_ws_bounds(src, pos + 1);
        } else if src[pos] == 35 {
            lemma_comment_end_bounds(src, pos + 1);
            if pos < comment_end(src, pos + 1) <= src.len() {
                lemma_skip_ws_bounds(src, comment_end(src, pos + 1));
            }
        }
    }
}

pub proof fn lemma_digit_end_bounds(src: Seq<u8>, pos: int)
    requires
        0 <= pos <= src.len(),
    ensures
        pos <= digit_end(src, pos) <= src.len(),
    decreases src.len() - pos,
{
    if pos < src.len() && is_digit(src[pos]) {
        lemma_digit_end_bounds(src, pos + 1);
    }
}

pub proof fn lemma_hex_digit_end_bounds(src: Seq<u8>, pos: int)
    requires
        0 <= pos <= src.len(),
    ensures
        pos <= hex_digit_end(src, pos) <= src.len(),
    decreases src.len() - pos,
{
    if pos < src.len() && is_hex_digit(src[pos]) {
        lemma_hex_digit_end_bounds(src, pos + 1);
    }
}

/// A digit run's value never shrinks as the run grows to the right.
pub proof fn lemma_run_value_grows(src: Seq<u8>, lo: int, mid: int, hi: int, base: int)
    requires
        lo <= mid <= hi,
        base >= 1,
        forall|k: int| lo <= k < hi ==> 0 <= #[trigger] digit_value(src[k]),
    ensures
        run_value(src, lo, hi, base) >= run_value(src, lo, mid, base) >= 0,
    decreases hi - mid,
{
    if mid == hi {
        lemma_run_value_nonneg(src, lo, mid, base);
    } else {
        lemma_run_value_grows(src, lo, mid, hi - 1, base);
        lemma_run_value_nonneg(src, lo, hi - 1, base);
        let v = run_value(src, lo, hi - 1, base);
        assert(v * base >= v) by (nonlinear_arith)
            requires v >= 0 && base >= 1,
        ;
    }
}

pub proof fn lemma_run_value_nonneg(src: Seq<u8>, lo: int, hi: int, base: int)
    requires
        lo <= hi,
        base >= 1,
        forall|k: int| lo <= k < hi ==> 0 <= #[trigger] digit_value(src[k]),
    ensures
        run_value(src, lo, hi, base) >= 0,
    decreases hi - lo,
{
    if lo < hi {
        lemma_run_value_nonneg(src, lo, hi - 1, base);
        let v = run_value(src, lo, hi - 1, base);
        assert(v * base >= 0) by (nonlinear_arith)
            requires v >= 0 && base >= 1,
        ;
    }
}

/// Appending one token to a tiling extends it to the token's end.
pub proof fn lemma_tiles_push(
    src: Seq<u8>,
    from: int,
    toks: Seq<(Token, Span)>,
    mid: int,
    t: Token,
    sp: Span,
)
    requires
        tiles(src, from, toks, mid),
        sp.lo == skip_ws(src, mid),
        token_at(src, sp.lo as int, t, sp.hi as int),
        sp.lo < sp.hi <= src.len(),
    ensures
        tiles(src, from, toks.push((t, sp)), sp.hi as int),
    decreases toks.len(),
{
    if toks.len() == 0 {
        assert(toks.push((t, sp))[0] == (t, sp));
        assert(toks.push((t, sp)).drop_first() =~= Seq::<(Token, Span)>::empty());
        assert(tiles(src, sp.hi as int, toks.push((t, sp)).drop_first(), sp.hi as int));
    } else {
        lemma_tiles_push(src, toks[0].1.hi as int, toks.drop_first(), mid, t, sp);
        assert(toks.push((t, sp))[0] == toks[0]);
        assert(toks.push((t, sp)).drop_first() =~= toks.drop_first().push((t, sp)));
    }
}

/// A tiling whose end sees only trailing whitespace is a complete token
/// stream for the whole input.
pub proof fn lemma_tiles_complete(src: Seq<u8>, from: int, toks: Seq<(Token, Span)>, to: int)
    requires
        tiles(src, from, toks, to),
        skip_ws(src, to) == src.len(),
    ensures
        tokens_match(src, from, toks),
    decreases toks.len(),
{
    if toks.len() > 0 {
        lemma_tiles_complete(src, toks[0].1.hi as int, toks.drop_first(), to);
    }
}

/// Integer literals are bucketed by magnitude alone: whatever its written
/// form, decimal or hexadecimal, a literal lexes to `Int8` exactly when its
/// value is at most 255, and either bucket carries that value.
pub proof fn lemma_literal_bucket(src: Seq<u8>, pos: int, t: Token, hi: int)
    requires
        token_at(src, pos, t, hi),
        t is Int8 || t is Int16,
    ensures
        t is Int8 <==> num_value(src, pos) <= 255,
        t matches Token::Int8(n) ==> n == num_value(src, pos),
        t matches Token::Int16(n) ==> n == num_value(src, pos),
{
}

pub proof fn lemma_digit_end_all(src: Seq<u8>, pos: int)
    requires
        0 <= pos <= src.len(),
    ensures
        forall|k: int| pos <= k < digit_end(src, pos) ==> is_digit(#[trigger] src[k]),
    decreases src.len() - pos,
{
    lemma_digit_end_bounds(src, pos);
    if pos < src.len() && is_digit(src[pos]) {
        lemma_digit_end_all(src, pos + 1);
    }
}

pub proof fn lemma_hex_digit_end_all(src: Seq<u8>, pos: int)
    requires
        0 <= pos <= src.len(),
    ensures
        forall|k: int| pos <= k < hex_digit_end(src, pos) ==> is_hex_digit(#[trigger] src[k]),
    decreases src.len() - pos,
{
    lemma_hex_digit_end_bounds(src, pos);
    if pos < src.len() && is_hex_digit(src[pos]) {
        lemma_hex_digit_end_all(src, pos + 1);
    }
}

// ---------------------------------------------------------------------------
// Executable scanning helpers
// ---------------------------------------------------------------------------

/// Copies `src[lo..hi)` into a fresh vector.
pub fn copy_range(src: &Vec<u8>, lo: usize, hi: usize) -> (r: Vec<u8>)
    requires
        lo <= hi <= src@.len(),
    ensures
        r@ == src@.subrange(lo as int, hi as int),
{
    let mut out: Vec<u8> = Vec::new();
    let mut i: usize = lo;
    while i < hi
        invariant
            lo <= i <= hi <= src@.len(),
            out@ == src@.subrange(lo as int, i as int),
        decreases hi - i,
    {
        out.push(src[i]);
        proof {
            assert(src@.subrange(lo as int, i + 1 as int)
                =~= src@.subrange(lo as int, i as int).push(src@[i as int]));
        }
        i += 1;
    }
    out
}

/// Whether `src[lo..hi)` is the single byte `a`.
fn run_is1(src: &Vec<u8>, lo: usize, hi: usize, a: u8) -> (r: bool)
    requires
        lo <= hi <= src@.len(),
    ensures
        r == (src@.subrange(lo as int, hi as int) == seq![a]),
{
    if hi - lo == 1 && src[lo] == a {
        proof {
            assert(src@.subrange(lo as int, hi as int) =~= seq![a]);
        }
        true
    } else {
        proof {
            let run = src@.subrange(lo as int, hi as int);
            if run == seq![a] {
                assert(run.len() == 1);
                assert(run[0] == a);
            }
        }
        false
    }
}

/// Whether `src[lo..hi)` is exactly the bytes `a`, `b`.
fn run_is2(src: &Vec<u8>, lo: usize, hi: usize, a: u8, b: u8) -> (r: bool)
    requires
        lo <= hi <= src@.len(),
    ensures
        r == (src@.subrange(lo as int, hi as int) == seq![a, b]),
{
    if hi - lo == 2 && src[lo] == a && src[lo + 1] == b {
        proof {
            assert(src@.subrange(lo as int, hi as int) =~= seq![a, b]);
        }
        true
    } else {
        proof {
            let run = src@.subrange(lo as int, hi as int);
            if run == seq![a, b] {
                assert(run.len() == 2);
                assert(run[0] == a && run[1] == b);
            }
        }
        false
    }
}

/// Whether `src[lo..hi)` is exactly the bytes `a`, `b`, `c`.
fn run_is3(src: &Vec<u8>, lo: usize, hi: usize, a: u8, b: u8, c: u8) -> (r: bool)
    requires
        lo <= hi <= src@.len(),
    ensures
        r == (src@.subrange(lo as int, hi as int) == seq![a, b, c]),
{
    if hi - lo == 3 && src[lo] == a && src[lo + 1] == b && src[lo + 2] == c {
        proof {
            assert(src@.subrange(lo as int, hi as int) =~= seq![a, b, c]);
        }
        true
    } else {
        proof {
            let run = src@.subrange(lo as int, hi as int);
            if run == seq![a, b, c] {
                assert(run.len() == 3);
                assert(run[0] == a && run[1] == b && run[2] == c);
            }
        }
        false
    }
}

/// Whether `src[lo..hi)` is exactly the bytes `a`, `b`, `c`, `d`.
fn run_is4(src: &Vec<u8>, lo: usize, hi: usize, a: u8, b: u8, c: u8, d: u8) -> (r: bool)
    requires
        lo <= hi <= src@.len(),
    ensures
        r == (src@.subrange(lo as int, hi as int) == seq![a, b, c, d]),
{
    if hi - lo == 4 && src[lo] == a && src[lo + 1] == b && src[lo + 2] == c && src[lo + 3] == d {
        proof {
            assert(src@.subrange(lo as int, hi as int) =~= seq![a, b, c, d]);
        }
        true
    } else {
        proof {
            let run = src@.subrange(lo as int, hi as int);
            if run == seq![a, b, c, d] {
                assert(run.len() == 4);
                assert(run[0] == a && run[1] == b && run[2] == c && run[3] == d);
            }
        }
        false
    }
}

/// Reads the decimal digit run at `start` and its value, or `None` when the
/// value does not fit in 16 bits.
fn scan_dec(src: &Vec<u8>, start: usize) -> (r: Option<(u32, usize)>)
    requires
        start < src@.len(),
        is_digit(src@[start as int]),
    ensures
        r matches Some(p) ==> {
            &&& p.1 == digit_end(src@, start as int)
            &&& start < p.1 <= src@.len()
            &&& p.0 == run_value(src@, start as int, p.1 as int, 10)
            &&& p.0 <= 0xFFFF
        },
        r is None ==> run_value(src@, start as int, digit_end(src@, start as int), 10) > 0xFFFF,
{
    let len = src.len();
    let mut j: usize = start;
    let mut acc: u32 = 0;
    while j < len && 48 <= src[j] && src[j] <= 57
        invariant
            start <= j <= len,
            len == src@.len(),
            digit_end(src@, start as int) == digit_end(src@, j as int),
            forall|k: int| start <= k < j ==> is_digit(#[trigger] src@[k]),
            acc == run_value(src@, start as int, j as int, 10),
            acc <= 0xFFFF,
        decreases len - j,
    {
        let dv: u8 = src[j] - 48;
        let acc2: u32 = acc * 10 + (dv as u32);
        proof {
            assert(run_value(src@, start as int, j + 1 as int, 10)
                == run_value(src@, start as int, j as int, 10) * 10 + digit_value(src@[j as int]));
        }
        if acc2 > 0xFFFF {
            proof {
                let de = digit_end(src@, start as int);
                lemma_digit_end_bounds(src@, j + 1 as int);
                lemma_digit_end_all(src@, start as int);
                assert forall|k: int| start <= k < de implies 0 <= #[trigger] digit_value(
                    src@[k],
                ) by {
                    assert(is_digit(src@[k]));
                }
                lemma_run_value_grows(src@, start as int, j + 1 as int, de, 10);
            }
            return None;
        }
        acc = acc2;
        j += 1;
    }
    Some((acc, j))
}

/// Reads the hexadecimal digit run at `start` and its value, or `None` when
/// the value does not fit in 16 bits.
fn scan_hex(src: &Vec<u8>, start: usize) -> (r: Option<(u32, usize)>)
    requires
        start < src@.len(),
        is_hex_digit(src@[start as int]),
    ensures
        r matches Some(p) ==> {
            &&& p.1 == hex_digit_end(src@, start as int)
            &&& start < p.1 <= src@.len()
            &&& p.0 == run_value(src@, start as int, p.1 as int, 16)
            &&& p.0 <= 0xFFFF
        },
        r is None ==> run_value(src@, start as int, hex_digit_end(src@, start as int), 16)
            > 0xFFFF,
{
    let len = src.len();
    let mut j: usize = start;
    let mut acc: u32 = 0;
    while j < len && (48 <= src[j] && src[j] <= 57 || 97 <= src[j] && src[j] <= 102 || 65
        <= src[j] && src[j] <= 70)
        invariant
            start <= j <= len,
            len == src@.len(),
            hex_digit_end(src@, start as int) == hex_digit_end(src@, j as int),
            forall|k: int| start <= k < j ==> is_hex_digit(#[trigger] src@[k]),
            acc == run_value(src@, start as int, j as int, 16),
            acc <= 0xFFFF,
        decreases len - j,
    {
        let b = src[j];
        let dv: u8 = if b <= 57 {
            b - 48
        } else if b >= 97 {
            b - 87
        } else {
            b - 55
        };
        let acc2: u32 = acc * 16 + (dv as u32);
        proof {
            assert(run_value(src@, start as int, j + 1 as int, 16)
                == run_value(src@, start as int, j as int, 16) * 16 + digit_value(src@[j as int]));
        }
        if acc2 > 0xFFFF {
            proof {
                let de = hex_digit_end(src@, start as int);
                lemma_hex_digit_end_bounds(src@, j + 1 as int);
                lemma_hex_digit_end_all(src@, start as int);
                assert forall|k: int| start <= k < de implies 0 <= #[trigger] digit_value(
                    src@[k],
                ) by {
                    assert(is_hex_digit(src@[k]));
                }
                lemma_run_value_grows(src@, start as int, j + 1 as int, de, 16);
            }
            return None;
        }
        acc = acc2;
        j += 1;
    }
    Some((acc, j))
}

/// Classifies the identifier-class run `src[lo..hi)`: the matching keyword
/// or register-name token when the run is reserved, an `Ident` otherwise.
fn classify_run(src: &Vec<u8>, lo: usize, hi: usize) -> (t: Token)
    requires
        lo < hi <= src@.len(),
    ensures
        ({
            let run = src@.subrange(lo as int, hi as int);
            if is_reserved(run) {
                is_word_token(t) && keyword_bytes(t) == run
            } else {
                t matches Token::Ident(id) && id@ == run
            }
        }),
{
    if run_is3(src, lo, hi, 110, 111, 112) {
        Token::Nop
    } else if run_is3(src, lo, hi, 99, 108, 115) {
        Token::Cls
    } else if run_is3(src, lo, hi, 114, 101, 116) {
        Token::Ret
    } else if run_is3(src, lo, hi, 106, 109, 112) {
        Token::Jmp
    } else if run_is4(src, lo, hi, 99, 97, 108, 108) {
        Token::Call
    } else if run_is2(src, lo, hi, 115, 101) {
        Token::Se
    } else if run_is3(src, lo, hi, 115, 110, 101) {
        Token::Sne
    } else if run_is3(src, lo, hi, 109, 111, 118) {
        Token::Mov
    } else if run_is3(src, lo, hi, 97, 100, 100) {
        Token::Add
    } else if run_is2(src, lo, hi, 111, 114) {
        Token::Or
    } else if run_is3(src, lo, hi, 97, 110, 100) {
        Token::And
    } else if run_is3(src, lo, hi, 120, 111, 114) {
        Token::Xor
    } else if run_is3(src, lo, hi, 115, 117, 98) {
        Token::Sub
    } else if run_is3(src, lo, hi, 115, 104, 114) {
        Token::Shr
    } else if run_is4(src, lo, hi, 115, 117, 98, 110) {
        Token::Subn
    } else if run_is3(src, lo, hi, 115, 104, 108) {
        Token::Shl
    } else if run_is4(src, lo, hi, 106, 109, 112, 114) {
        Token::Jmpr
    } else if run_is3(src, lo, hi, 114, 110, 100) {
        Token::Rnd
    } else if run_is3(src, lo, hi, 100, 114, 119) {
        Token::Drw
    } else if run_is3(src, lo, hi, 115, 107, 112) {
        Token::Skp
    } else if run_is4(src, lo, hi, 115, 107, 110, 112) {
        Token::Sknp
    } else if run_is4(src, lo, hi, 119, 97, 105, 116) {
        Token::Wait
    } else if run_is3(src, lo, hi, 115, 112, 114) {
        Token::Spr
    } else if run_is3(src, lo, hi, 98, 99, 100) {
        Token::Bcd
    } else if run_is4(src, lo, hi, 115, 97, 118, 101) {
        Token::Save
    } else if run_is4(src, lo, hi, 108, 111, 97, 100) {
        Token::Load
    } else if run_is1(src, lo, hi, 105) {
        Token::IRegister
    } else if run_is2(src, lo, hi, 100, 116) {
        Token::DelayTimer
    } else if run_is2(src, lo, hi, 115, 116) {
        Token::SoundTimer
    } else {
        Token::Ident(copy_range(src, lo, hi))
    }
}

// ---------------------------------------------------------------------------
// The lexer
// ---------------------------------------------------------------------------

/// A cursor over the source bytes that hands out one token at a time.
pub struct Lexer {
    source: Vec<u8>,
    position: usize,
}

impl Lexer {
    /// The source text being tokenized.
    pub closed spec fn src(&self) -> Seq<u8> {
        self.source@
    }

    /// The current scan offset.
    pub closed spec fn pos(&self) -> int {
        self.position as int
    }

    /// Builds a lexer over a copy of the source text, positioned at its start.
    pub fn new(src: &Vec<u8>) -> (l: Lexer)
        ensures
            l.src() == src@,
            l.pos() == 0,
    {
        Lexer { source: copy_bytes(src), position: 0 }
    }

    /// Advances past whitespace and comments to the next token start.
    fn skip_trivia(&mut self)
        requires
            old(self).pos() <= old(self).src().len(),
        ensures
            final(self).src() == old(self).src(),
            final(self).pos() == skip_ws(old(self).src(), old(self).pos()),
            final(self).pos() <= final(self).src().len(),
    {
        let ghost src = self.source@;
        let ghost start = self.position as int;
        let len = self.source.len();
        while self.position < len && (self.source[self.position] == 32 || self.source[self.position]
            == 13 || self.source[self.position] == 9 || self.source[self.position] == 35)
            invariant
                self.source@ == src,
                len == src.len(),
                self.position <= len,
                skip_ws(src, start) == skip_ws(src, self.position as int),
            decreases len - self.position,
        {
            if self.source[self.position] == 35 {
                let ghost hash = self.position as int;
                self.position += 1;
                while self.position < len && self.source[self.position] != 10
                    invariant
                        self.source@ == src,
                        len == src.len(),
                        hash < self.position <= len,
                        comment_end(src, hash + 1) == comment_end(src, self.position as int),
                    decreases len - self.position,
                {
                    self.position += 1;
                }
                proof {
                    assert(comment_end(src, hash + 1) == self.position as int);
                    assert(skip_ws(src, hash) == skip_ws(src, self.position as int));
                }
            } else {
                self.position += 1;
            }
        }
        proof {
            lemma_skip_ws_bounds(src, start);
        }
    }

    /// Returns the next token with its span, `None` at the end of input, or
    /// the first lexical error. Whitespace and comments are skipped.
    pub fn next(&mut self) -> (r: Result<Option<(Token, Span)>, LexError>)
        requires
            old(self).pos() <= old(self).src().len(),
        ensures
            final(self).src() == old(self).src(),
            final(self).pos() <= final(self).src().len(),
            ({
                let src = old(self).src();
                let p = skip_ws(src, old(self).pos());
                &&& (r matches Ok(None) ==> p == src.len() && final(self).pos() == p)
                &&& (r matches Ok(Some(pair)) ==> {
                    &&& pair.1.lo == p
                    &&& pair.1.hi == scan_end(src, p)
                    &&& scan_ok(src, p)
                    &&& token_at(src, p, pair.0, pair.1.hi as int)
                    &&& p < pair.1.hi <= src.len()
                    &&& final(self).pos() == pair.1.hi
                })
                &&& (r matches Err(e) ==> {
                    &&& p < src.len()
                    &&& !scan_ok(src, p)
                    &&& e.pos == p
                    &&& e.kind == scan_err_kind(src, p)
                    &&& final(self).pos() == p
                })
            }),
    {
        let ghost src = self.source@;
        self.skip_trivia();
        let p = self.position;
        let len = self.source.len();
        if p == len {
            return Ok(None);
        }
        let b = self.source[p];
        if b == 10 {
            self.position = p + 1;
            return Ok(Some((Token::Newline, Span { lo: p, hi: p + 1 })));
        }
        if b == 44 {
            self.position = p + 1;
            return Ok(Some((Token::Comma, Span { lo: p, hi: p + 1 })));
        }
        if b == 58 {
            self.position = p + 1;
            return Ok(Some((Token::Colon, Span { lo: p, hi: p + 1 })));
        }
        if b == 36 {
            self.position = p + 1;
            return Ok(Some((Token::Dollar, Span { lo: p, hi: p + 1 })));
        }
        if 48 <= b && b <= 57 {
            // Integer literal, hexadecimal when it starts `0x` with a hex
            // digit right after, decimal otherwise.
            let scanned: Option<(u32, usize)> = if b == 48 && len - p > 2 && self.source[p + 1]
                == 120 && (48 <= self.source[p + 2] && self.source[p + 2] <= 57 || 97
                <= self.source[p + 2] && self.source[p + 2] <= 102 || 65 <= self.source[p + 2]
                && self.source[p + 2] <= 70) {
                scan_hex(&self.source, p + 2)
            } else {
                scan_dec(&self.source, p)
            };
            match scanned {
                None => {
                    return Err(LexError { pos: p, kind: LexErrorKind::IntTooLarge });
                },
                Some((v, j)) => {
                    self.position = j;
                    let t = if v <= 255 {
                        Token::Int8(v as u8)
                    } else {
                        Token::Int16(v as u16)
                    };
                    return Ok(Some((t, Span { lo: p, hi: j })));
                },
            }
        }
        if b == 118 && len - p > 1 && 48 <= self.source[p + 1] && self.source[p + 1] <= 57 {
            // Register: `v`, one digit, and a second digit only in 0..=5.
            let d1: u8 = self.source[p + 1] - 48;
            let (val, j): (u8, usize) = if len - p > 2 && 48 <= self.source[p + 2] && self.source[p
                + 2] <= 53 {
                (d1 * 10 + (self.source[p + 2] - 48), p + 3)
            } else {
                (d1, p + 2)
            };
            proof {
                assert(run_value(src, p + 1 as int, p + 1 as int, 10) == 0);
                assert(run_value(src, p + 1 as int, p + 2 as int, 10)
                    == run_value(src, p + 1 as int, p + 1 as int, 10) * 10 + digit_value(
                    src[p + 1 as int],
                ));
                assert(run_value(src, p + 1 as int, p + 3 as int, 10)
                    == run_value(src, p + 1 as int, p + 2 as int, 10) * 10 + digit_value(
                    src[p + 2 as int],
                ));
                assert(reg_value(src, p as int) == val);
            }
            if val > 15 {
                return Err(LexError { pos: p, kind: LexErrorKind::BadRegister });
            }
            self.position = j;
            return Ok(Some((Token::Register(val), Span { lo: p, hi: j })));
        }
        if 65 <= b && b <= 90 || 97 <= b && b <= 122 || b == 95 {
            // Identifier-class run: keyword, register name, or identifier.
            let mut j: usize = p;
            while j < len && (65 <= self.source[j] && self.source[j] <= 90 || 97 <= self.source[j]
                && self.source[j] <= 122 || self.source[j] == 95)
                invariant
                    self.source@ == src,
                    len == src.len(),
                    p <= j <= len,
                    alpha_end(src, p as int) == alpha_end(src, j as int),
                    forall|k: int| p <= k < j ==> is_alpha(#[trigger] src[k]),
                decreases len - j,
            {
                j += 1;
            }
            let t = classify_run(&self.source, p, j);
            self.position = j;
            return Ok(Some((t, Span { lo: p, hi: j })));
        }
        Err(LexError { pos: p, kind: LexErrorKind::InvalidChar })
    }
}

/// Runs the lexer over the whole input, collecting the token stream.
pub fn tokenize(src: &Vec<u8>) -> (r: Result<Vec<(Token, Span)>, LexError>)
    ensures
        r matches Ok(toks) ==> tokens_match(src@, 0, toks@) && lexable(src@, 0),
        r matches Err(e) ==> {
            &&& !lexable(src@, 0)
            &&& e.pos == lex_fail_pos(src@, 0)
            &&& e.kind == scan_err_kind(src@, e.pos as int)
        },
{
    let mut lexer = Lexer::new(src);
    let mut toks: Vec<(Token, Span)> = Vec::new();
    loop
        invariant
            lexer.src() == src@,
            0 <= lexer.pos() <= src@.len(),
            tiles(src@, 0, toks@, lexer.pos()),
            lexable(src@, 0) == lexable(src@, lexer.pos()),
            !lexable(src@, lexer.pos()) ==> lex_fail_pos(src@, 0) == lex_fail_pos(
                src@,
                lexer.pos(),
            ),
        decreases src@.len() - lexer.pos(),
    {
        let ghost prev = lexer.pos();
        let ghost old_toks = toks@;
        match lexer.next() {
            Ok(None) => {
                proof {
                    lemma_tiles_complete(src@, 0, toks@, prev);
                }
                return Ok(toks);
            },
            Ok(Some((t, sp))) => {
                proof {
                    lemma_skip_ws_bounds(src@, prev);
                    lemma_tiles_push(src@, 0, toks@, prev, t, sp);
                }
                toks.push((t, sp));
                proof {
                    assert(toks@ =~= old_toks.push((t, sp)));
                }
            },
            Err(e) => {
                return Err(e);
            },
        }
    }
}

} // verus!
