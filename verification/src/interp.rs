//! The two-pass code generator.
//!
//! Pass one walks the statements to lay out label addresses and count the
//! statements that emit no code. Sprite addresses follow from the code size
//! and the running total of sprite bytes. Pass two emits each instruction as
//! two big-endian bytes, records sprite data, and resolves label and sprite
//! references through the finished symbol tables, so forward and backward
//! references resolve alike. The output is the code segment followed by the
//! sprite data.
use vstd::prelude::*;

use crate::bytes_eq;
use crate::copy_bytes;
use crate::extend_bytes;
use crate::lexer::Span;
use crate::parser::Program;
use crate::parser::Stmt;
use crate::parser::Stmt_;

verus! {

/// The CHIP-8 load address: byte 0 of the output image lives here.
pub const PROGRAM_START: u16 = 0x200;

// ---------------------------------------------------------------------------
// Symbol tables
// ---------------------------------------------------------------------------

/// The map described by an association list, later entries overriding
/// earlier ones.
pub open spec fn table_map(entries: Seq<(Vec<u8>, u16)>) -> Map<Seq<u8>, u16>
    decreases entries.len(),
{
    if entries.len() == 0 {
        Map::empty()
    } else {
        table_map(entries.drop_last()).insert(entries.last().0@, entries.last().1)
    }
}

/// A mapping from identifiers to 16-bit addresses where the last declaration
/// of a name wins.
pub struct SymbolTable {
    entries: Vec<(Vec<u8>, u16)>,
}

impl SymbolTable {
    /// The table as a mathematical map.
    pub closed spec fn view(&self) -> Map<Seq<u8>, u16> {
        table_map(self.entries@)
    }

    /// An empty table.
    pub fn new() -> (t: SymbolTable)
        ensures
            t@ == Map::<Seq<u8>, u16>::empty(),
    {
        SymbolTable { entries: Vec::new() }
    }

    /// Binds `key` to `value`, overriding any earlier binding.
    pub fn insert(&mut self, key: Vec<u8>, value: u16)
        ensures
            final(self)@ == old(self)@.insert(key@, value),
    {
        let ghost before = self.entries@;
        self.entries.push((key, value));
        proof {
            assert(self.entries@.drop_last() =~= before);
        }
    }

    /// Looks `key` up, returning the address of its last binding.
    pub fn get(&self, key: &Vec<u8>) -> (r: Option<u16>)
        ensures
            r matches Some(v) ==> self@.contains_key(key@) && self@[key@] == v,
            r is None ==> !self@.contains_key(key@),
    {
        let ghost all = self.entries@;
        proof {
            assert(all.take(all.len() as int) =~= all);
        }
        let mut i: usize = self.entries.len();
        while i > 0
            invariant
                i <= all.len(),
                all == self.entries@,
                table_map(all).contains_key(key@) == table_map(all.take(i as int)).contains_key(
                    key@,
                ),
                table_map(all).contains_key(key@) ==> table_map(all)[key@] == table_map(
                    all.take(i as int),
                )[key@],
            decreases i,
        {
            i -= 1;
            proof {
                assert(all.take(i + 1 as int).drop_last() =~= all.take(i as int));
                assert(all.take(i + 1 as int).last() == all[i as int]);
            }
            if bytes_eq(&self.entries[i].0, key) {
                return Some(self.entries[i].1);
            }
        }
        proof {
            assert(all.take(0) =~= Seq::<(Vec<u8>, u16)>::empty());
        }
        None
    }

    /// Whether `key` is bound.
    pub fn contains(&self, key: &Vec<u8>) -> (r: bool)
        ensures
            r == self@.contains_key(key@),
    {
        match self.get(key) {
            Some(_) => true,
            None => false,
        }
    }
}

// ---------------------------------------------------------------------------
// Layout: what pass one computes
// ---------------------------------------------------------------------------

/// Whether a statement emits an instruction into the code segment. Label and
/// sprite declarations do not.
pub open spec fn stmt_emits(s: Stmt_) -> bool {
    !(s is DeclareLabel || s is DeclareSprite)
}

/// How many of the first `i` statements emit code.
pub open spec fn emitted_before(stmts: Seq<Stmt>, i: int) -> int
    decreases i,
{
    if i <= 0 {
        0
    } else {
        emitted_before(stmts, i - 1) + if stmt_emits(stmts[i - 1].node) {
            1int
        } else {
            0int
        }
    }
}

/// How many sprite bytes the first `i` statements declare.
pub open spec fn sprite_bytes_before(stmts: Seq<Stmt>, i: int) -> int
    decreases i,
{
    if i <= 0 {
        0
    } else {
        sprite_bytes_before(stmts, i - 1) + (match stmts[i - 1].node {
            Stmt_::DeclareSprite(_, data) => data@.len() as int,
            _ => 0int,
        })
    }
}

/// The size in bytes of the code segment: two per emitted instruction.
pub open spec fn code_size(stmts: Seq<Stmt>) -> int {
    2 * emitted_before(stmts, stmts.len() as int)
}

/// The address a label declared at statement `i` denotes: where the next
/// emitted instruction would live.
pub open spec fn label_addr(stmts: Seq<Stmt>, i: int) -> int {
    0x200 + 2 * emitted_before(stmts, i)
}

/// The address of the first byte of a sprite declared at statement `i`:
/// sprite data follows the code segment in declaration order.
pub open spec fn sprite_addr(stmts: Seq<Stmt>, i: int) -> int {
    0x200 + code_size(stmts) + sprite_bytes_before(stmts, i)
}

/// The label table after the first `n` statements: last declaration wins.
pub open spec fn labels_upto(stmts: Seq<Stmt>, n: int) -> Map<Seq<u8>, u16>
    decreases n,
{
    if n <= 0 {
        Map::empty()
    } else {
        let m = labels_upto(stmts, n - 1);
        match stmts[n - 1].node {
            Stmt_::DeclareLabel(id) => m.insert(id@, label_addr(stmts, n - 1) as u16),
            _ => m,
        }
    }
}

/// The finished label table.
pub open spec fn labels_of(stmts: Seq<Stmt>) -> Map<Seq<u8>, u16> {
    labels_upto(stmts, stmts.len() as int)
}

/// The sprite table after the first `n` statements: last declaration wins.
pub open spec fn sprites_upto(stmts: Seq<Stmt>, n: int) -> Map<Seq<u8>, u16>
    decreases n,
{
    if n <= 0 {
        Map::empty()
    } else {
        let m = sprites_upto(stmts, n - 1);
        match stmts[n - 1].node {
            Stmt_::DeclareSprite(id, _) => m.insert(id@, sprite_addr(stmts, n - 1) as u16),
            _ => m,
        }
    }
}

/// The finished sprite table.
pub open spec fn sprites_of(stmts: Seq<Stmt>) -> Map<Seq<u8>, u16> {
    sprites_upto(stmts, stmts.len() as int)
}

// ---------------------------------------------------------------------------
// Well-formedness and size bounds
// ---------------------------------------------------------------------------

/// Whether a statement's operands are in range: register indices and draw
/// heights are four-bit values.
pub open spec fn stmt_wf(s: Stmt_) -> bool {
    match s {
        Stmt_::SkipEqualsInteger(x, _) => x <= 15,
        Stmt_::SkipNotEqualsInteger(x, _) => x <= 15,
        Stmt_::SkipEqualsRegister(x, y) => x <= 15 && y <= 15,
        Stmt_::MoveRegisterInteger(x, _) => x <= 15,
        Stmt_::AddRegisterInteger(x, _) => x <= 15,
        Stmt_::MoveRegisterRegister(x, y) => x <= 15 && y <= 15,
        Stmt_::Or(x, y) => x <= 15 && y <= 15,
        Stmt_::And(x, y) => x <= 15 && y <= 15,
        Stmt_::Xor(x, y) => x <= 15 && y <= 15,
        Stmt_::AddRegisterRegister(x, y) => x <= 15 && y <= 15,
        Stmt_::Subtract(x, y) => x <= 15 && y <= 15,
        Stmt_::ShiftRight(x) => x <= 15,
        Stmt_::SubtractReverse(x, y) => x <= 15 && y <= 15,
        Stmt_::ShiftLeft(x) => x <= 15,
        Stmt_::SkipNotEqualsRegister(x, y) => x <= 15 && y <= 15,
        Stmt_::Random(x, _) => x <= 15,
        Stmt_::Draw(x, y, d) => x <= 15 && y <= 15 && d <= 15,
        Stmt_::SkipKeyPressed(x) => x <= 15,
        Stmt_::SkipKeyNotPressed(x) => x <= 15,
        Stmt_::MoveRegisterDelay(x) => x <= 15,
        Stmt_::WaitKeyPress(x) => x <= 15,
        Stmt_::MoveDelayRegister(x) => x <= 15,
        Stmt_::MoveSoundRegister(x) => x <= 15,
        Stmt_::AddIRegisterRegister(x) => x <= 15,
        Stmt_::Sprite(x) => x <= 15,
        Stmt_::Bcd(x) => x <= 15,
        Stmt_::Save(x) => x <= 15,
        Stmt_::Load(x) => x <= 15,
        _ => true,
    }
}

/// Whether every statement of a program is well-formed.
pub open spec fn prog_wf(stmts: Seq<Stmt>) -> bool {
    forall|i: int| 0 <= i < stmts.len() ==> stmt_wf(#[trigger] stmts[i].node)
}

/// Whether the whole image fits below the 12-bit address ceiling, so every
/// label and sprite address is a valid CHIP-8 address.
pub open spec fn layout_fits(stmts: Seq<Stmt>) -> bool {
    0x200 + code_size(stmts) + sprite_bytes_before(stmts, stmts.len() as int) <= 0x1000
}

// ---------------------------------------------------------------------------
// Reference resolution and encoding
// ---------------------------------------------------------------------------

/// Whether a statement's symbol references are all defined.
pub open spec fn stmt_ref_ok(s: Stmt_, lm: Map<Seq<u8>, u16>, sm: Map<Seq<u8>, u16>) -> bool {
    match s {
        Stmt_::JumpLabel(id) => lm.contains_key(id@),
        Stmt_::CallLabel(id) => lm.contains_key(id@),
        Stmt_::MoveIRegisterSprite(id) => sm.contains_key(id@),
        _ => true,
    }
}

/// Whether every reference in the program resolves.
pub open spec fn refs_ok(stmts: Seq<Stmt>) -> bool {
    forall|i: int|
        0 <= i < stmts.len() ==> stmt_ref_ok(
            #[trigger] stmts[i].node,
            labels_of(stmts),
            sprites_of(stmts),
        )
}

/// The index of the first statement whose reference is undefined, scanning
/// from `i`; the program's length when all resolve.
pub open spec fn first_bad_ref(stmts: Seq<Stmt>, i: int) -> int
    decreases stmts.len() - i,
{
    if !(0 <= i < stmts.len()) {
        stmts.len() as int
    } else if !stmt_ref_ok(stmts[i].node, labels_of(stmts), sprites_of(stmts)) {
        i
    } else {
        first_bad_ref(stmts, i + 1)
    }
}

/// The high byte of an address-family opcode: the class nibble over the top
/// four bits of the 12-bit address.
pub open spec fn addr_hi(class: int, nnn: u16) -> u8 {
    (class + ((nnn as int) / 256) % 16) as u8
}

/// The low byte of an address-family opcode.
pub open spec fn addr_lo(nnn: u16) -> u8 {
    ((nnn as int) % 256) as u8
}

/// The two opcode bytes of an emitting statement, big-endian, with label and
/// sprite references resolved through the given tables.
pub open spec fn enc_pair(s: Stmt_, lm: Map<Seq<u8>, u16>, sm: Map<Seq<u8>, u16>) -> (u8, u8) {
    match s {
        Stmt_::Nop => (0u8, 0u8),
        Stmt_::Clear => (0u8, 0xE0u8),
        Stmt_::Return => (0u8, 0xEEu8),
        Stmt_::JumpInteger(nnn) => (addr_hi(0x10, nnn), addr_lo(nnn)),
        Stmt_::JumpLabel(id) => (addr_hi(0x10, lm[id@]), addr_lo(lm[id@])),
        Stmt_::CallInteger(nnn) => (addr_hi(0x20, nnn), addr_lo(nnn)),
        Stmt_::CallLabel(id) => (addr_hi(0x20, lm[id@]), addr_lo(lm[id@])),
        Stmt_::SkipEqualsInteger(x, nn) => ((0x30 + x as int) as u8, nn),
        Stmt_::SkipNotEqualsInteger(x, nn) => ((0x40 + x as int) as u8, nn),
        Stmt_::SkipEqualsRegister(x, y) => ((0x50 + x as int) as u8, (y as int * 16) as u8),
        Stmt_::MoveRegisterInteger(x, nn) => ((0x60 + x as int) as u8, nn),
        Stmt_::AddRegisterInteger(x, nn) => ((0x70 + x as int) as u8, nn),
        Stmt_::MoveRegisterRegister(x, y) => ((0x80 + x as int) as u8, (y as int * 16) as u8),
        Stmt_::Or(x, y) => ((0x80 + x as int) as u8, (y as int * 16 + 1) as u8),
        Stmt_::And(x, y) => ((0x80 + x as int) as u8, (y as int * 16 + 2) as u8),
        Stmt_::Xor(x, y) => ((0x80 + x as int) as u8, (y as int * 16 + 3) as u8),
        Stmt_::AddRegisterRegister(x, y) => ((0x80 + x as int) as u8, (y as int * 16 + 4) as u8),
        Stmt_::Subtract(x, y) => ((0x80 + x as int) as u8, (y as int * 16 + 5) as u8),
        Stmt_::ShiftRight(x) => ((0x80 + x as int) as u8, 0x06u8),
        Stmt_::SubtractReverse(x, y) => ((0x80 + x as int) as u8, (y as int * 16 + 7) as u8),
        Stmt_::ShiftLeft(x) => ((0x80 + x as int) as u8, 0x0Eu8),
        Stmt_::SkipNotEqualsRegister(x, y) => ((0x90 + x as int) as u8, (y as int * 16) as u8),
        Stmt_::MoveIRegisterInteger(nnn) => (addr_hi(0xA0, nnn), addr_lo(nnn)),
        Stmt_::MoveIRegisterSprite(id) => (addr_hi(0xA0, sm[id@]), addr_lo(sm[id@])),
        Stmt_::JumpRegister(nnn) => (addr_hi(0xB0, nnn), addr_lo(nnn)),
        Stmt_::Random(x, nn) => ((0xC0 + x as int) as u8, nn),
        Stmt_::Draw(x, y, d) => ((0xD0 + x as int) as u8, (y as int * 16 + d as int) as u8),
        Stmt_::SkipKeyPressed(x) => ((0xE0 + x as int) as u8, 0x9Eu8),
        Stmt_::SkipKeyNotPressed(x) => ((0xE0 + x as int) as u8, 0xA1u8),
        Stmt_::MoveRegisterDelay(x) => ((0xF0 + x as int) as u8, 0x07u8),
        Stmt_::WaitKeyPress(x) => ((0xF0 + x as int) as u8, 0x0Au8),
        Stmt_::MoveDelayRegister(x) => ((0xF0 + x as int) as u8, 0x15u8),
        Stmt_::MoveSoundRegister(x) => ((0xF0 + x as int) as u8, 0x18u8),
        Stmt_::AddIRegisterRegister(x) => ((0xF0 + x as int) as u8, 0x1Eu8),
        Stmt_::Sprite(x) => ((0xF0 + x as int) as u8, 0x29u8),
        Stmt_::Bcd(x) => ((0xF0 + x as int) as u8, 0x33u8),
        Stmt_::Save(x) => ((0xF0 + x as int) as u8, 0x55u8),
        Stmt_::Load(x) => ((0xF0 + x as int) as u8, 0x65u8),
        Stmt_::DeclareSprite(_, _) => (0u8, 0u8),
        Stmt_::DeclareLabel(_) => (0u8, 0u8),
    }
}

/// The two opcode bytes of an emitting statement, as a byte sequence.
pub open spec fn enc_bytes(s: Stmt_, lm: Map<Seq<u8>, u16>, sm: Map<Seq<u8>, u16>) -> Seq<u8> {
    seq![enc_pair(s, lm, sm).0, enc_pair(s, lm, sm).1]
}

/// The code segment produced by the first `n` statements.
pub open spec fn code_upto(
    stmts: Seq<Stmt>,
    n: int,
    lm: Map<Seq<u8>, u16>,
    sm: Map<Seq<u8>, u16>,
) -> Seq<u8>
    decreases n,
{
    if n <= 0 {
        Seq::empty()
    } else {
        code_upto(stmts, n - 1, lm, sm) + if stmt_emits(stmts[n - 1].node) {
            enc_bytes(stmts[n - 1].node, lm, sm)
        } else {
            Seq::empty()
        }
    }
}

/// The sprite segment produced by the first `n` statements: all declared
/// sprite bytes in declaration order, duplicates included.
pub open spec fn sprite_data_upto(stmts: Seq<Stmt>, n: int) -> Seq<u8>
    decreases n,
{
    if n <= 0 {
        Seq::empty()
    } else {
        sprite_data_upto(stmts, n - 1) + (match stmts[n - 1].node {
            Stmt_::DeclareSprite(_, data) => data@,
            _ => Seq::empty(),
        })
    }
}

/// The whole output image: the code segment followed by the sprite segment.
pub open spec fn output_bytes(stmts: Seq<Stmt>) -> Seq<u8> {
    code_upto(stmts, stmts.len() as int, labels_of(stmts), sprites_of(stmts)) + sprite_data_upto(
        stmts,
        stmts.len() as int,
    )
}

// ---------------------------------------------------------------------------
// Warnings and errors
// ---------------------------------------------------------------------------

/// Which kind of symbol a diagnostic is about.
#[derive(Debug, Clone, Copy, PartialEq, Eq, Structural)]
pub enum SymbolKind {
    Label,
    Sprite,
}

/// A non-fatal diagnostic: a duplicate label or sprite declaration.
#[derive(Debug, Clone, PartialEq, Eq)]
pub struct Warning {
    pub span: Span,
    pub kind: SymbolKind,
    pub name: Vec<u8>,
}

/// A fatal diagnostic: a reference to an undefined label or sprite.
#[derive(Debug, Clone, PartialEq, Eq)]
pub struct AsmError {
    pub span: Span,
    pub kind: SymbolKind,
    pub name: Vec<u8>,
}

/// The identifier a declaration introduces; the empty sequence for
/// statements that declare nothing.
pub open spec fn decl_id(s: Stmt_) -> Seq<u8> {
    match s {
        Stmt_::DeclareLabel(id) => id@,
        Stmt_::DeclareSprite(id, _) => id@,
        _ => Seq::empty(),
    }
}

/// Whether statement `i` declares a label some earlier statement already
/// declared.
pub open spec fn is_dup_label(stmts: Seq<Stmt>, i: int) -> bool {
    stmts[i].node is DeclareLabel && labels_upto(stmts, i).contains_key(decl_id(stmts[i].node))
}

/// Whether statement `i` declares a sprite some earlier statement already
/// declared.
pub open spec fn is_dup_sprite(stmts: Seq<Stmt>, i: int) -> bool {
    stmts[i].node is DeclareSprite && sprites_upto(stmts, i).contains_key(decl_id(stmts[i].node))
}

/// The indices below `n` of duplicate label declarations, in order.
pub open spec fn dup_label_idxs(stmts: Seq<Stmt>, n: int) -> Seq<int>
    decreases n,
{
    if n <= 0 {
        Seq::empty()
    } else {
        dup_label_idxs(stmts, n - 1) + if is_dup_label(stmts, n - 1) {
            seq![n - 1]
        } else {
            Seq::empty()
        }
    }
}

/// The indices below `n` of duplicate sprite declarations, in order.
pub open spec fn dup_sprite_idxs(stmts: Seq<Stmt>, n: int) -> Seq<int>
    decreases n,
{
    if n <= 0 {
        Seq::empty()
    } else {
        dup_sprite_idxs(stmts, n - 1) + if is_dup_sprite(stmts, n - 1) {
            seq![n - 1]
        } else {
            Seq::empty()
        }
    }
}

/// Whether warning `w` reports the declaration at statement `i` as a
/// duplicate of kind `kind`.
pub open spec fn warning_for(w: Warning, stmts: Seq<Stmt>, i: int, kind: SymbolKind) -> bool {
    &&& w.kind == kind
    &&& w.span == stmts[i].span
    &&& w.name@ == decl_id(stmts[i].node)
}

/// Whether `ws` is exactly the warnings the assembler reports when pass two
/// reaches statement `cut`: one warning per duplicate label (the whole
/// program, from pass one), then one per duplicate sprite before `cut`.
pub open spec fn warnings_match(stmts: Seq<Stmt>, cut: int, ws: Seq<Warning>) -> bool {
    let li = dup_label_idxs(stmts, stmts.len() as int);
    let si = dup_sprite_idxs(stmts, cut);
    &&& ws.len() == li.len() + si.len()
    &&& (forall|k: int| 0 <= k < li.len() ==> warning_for(#[trigger] ws[k], stmts, li[k],
        SymbolKind::Label))
    &&& (forall|k: int|
        0 <= k < si.len() ==> warning_for(
            #[trigger] ws[li.len() + k],
            stmts,
            si[k],
            SymbolKind::Sprite,
        ))
}

/// Whether error `e` reports the undefined reference of statement `i`.
pub open spec fn error_for(e: AsmError, stmts: Seq<Stmt>) -> bool {
    let i = first_bad_ref(stmts, 0);
    &&& 0 <= i < stmts.len()
    &&& e.span == stmts[i].span
    &&& match stmts[i].node {
        Stmt_::JumpLabel(id) => e.kind == SymbolKind::Label && e.name@ == id@,
        Stmt_::CallLabel(id) => e.kind == SymbolKind::Label && e.name@ == id@,
        Stmt_::MoveIRegisterSprite(id) => e.kind == SymbolKind::Sprite && e.name@ == id@,
        _ => false,
    }
}

/// Whether warning `w` has the given span, kind and name.
pub open spec fn warning_is(w: Warning, span: Span, kind: SymbolKind, name: Seq<u8>) -> bool {
    &&& w.span == span
    &&& w.kind == kind
    &&& w.name@ == name
}

// ---------------------------------------------------------------------------
// Bounds lemmas for the layout quantities
// ---------------------------------------------------------------------------

pub proof fn lemma_emitted_bounds(stmts: Seq<Stmt>, i: int)
    requires
        0 <= i,
    ensures
        0 <= emitted_before(stmts, i) <= i,
    decreases i,
{
    if i > 0 {
        lemma_emitted_bounds(stmts, i - 1);
    }
}

pub proof fn lemma_emitted_mono(stmts: Seq<Stmt>, i: int, j: int)
    requires
        0 <= i <= j,
    ensures
        emitted_before(stmts, i) <= emitted_before(stmts, j),
    decreases j - i,
{
    if i < j {
        lemma_emitted_mono(stmts, i, j - 1);
        lemma_emitted_bounds(stmts, j - 1);
    }
}

pub proof fn lemma_sprite_bytes_bounds(stmts: Seq<Stmt>, i: int)
    requires
        0 <= i,
    ensures
        0 <= sprite_bytes_before(stmts, i),
    decreases i,
{
    if i > 0 {
        lemma_sprite_bytes_bounds(stmts, i - 1);
    }
}

pub proof fn lemma_sprite_bytes_mono(stmts: Seq<Stmt>, i: int, j: int)
    requires
        0 <= i <= j,
    ensures
        sprite_bytes_before(stmts, i) <= sprite_bytes_before(stmts, j),
    decreases j - i,
{
    if i < j {
        lemma_sprite_bytes_mono(stmts, i, j - 1);
    }
}

/// The sprite segment of the first `n` statements holds exactly the sprite
/// bytes they declare.
pub proof fn lemma_sprite_data_upto_len(stmts: Seq<Stmt>, n: int)
    requires
        0 <= n,
    ensures
        sprite_data_upto(stmts, n).len() == sprite_bytes_before(stmts, n),
    decreases n,
{
    if n > 0 {
        lemma_sprite_data_upto_len(stmts, n - 1);
    }
}

/// A scan that has found no undefined reference up to `b` fails first
/// wherever the scan from `b` fails first.
pub proof fn lemma_first_bad_skip(stmts: Seq<Stmt>, a: int, b: int)
    requires
        0 <= a <= b <= stmts.len(),
        forall|j: int|
            a <= j < b ==> stmt_ref_ok(#[trigger] stmts[j].node, labels_of(stmts), sprites_of(
                stmts,
            )),
    ensures
        first_bad_ref(stmts, a) == first_bad_ref(stmts, b),
    decreases b - a,
{
    if a < b {
        lemma_first_bad_skip(stmts, a + 1, b);
    }
}

// ---------------------------------------------------------------------------
// Pass one: label layout
// ---------------------------------------------------------------------------

/// The state pass one threads through the statements: the label table under
/// construction, the duplicate-label warnings, the tentative program counter
/// and the count of statements that emit nothing.
pub struct Pass1 {
    pub labels: SymbolTable,
    pub warnings: Vec<Warning>,
    pub pc: u16,
    pub skips: usize,
}

/// One step of pass one, after the program counter was tentatively advanced
/// by 2: a label declaration records the address the rolled-back counter
/// denotes (warning on a duplicate), declarations roll the counter back, and
/// every other statement leaves it advanced.
pub fn interp_label(props: &mut Pass1, stmt: &Stmt)
    requires
        2 <= old(props).pc <= 0x0E02,
        old(props).skips < usize::MAX,
    ensures
        ({
            let p0 = *old(props);
            let p1 = *final(props);
            match stmt.node {
                Stmt_::DeclareLabel(id) => {
                    &&& p1.labels@ == p0.labels@.insert(id@, (0x200 + p0.pc - 2) as u16)
                    &&& p1.pc == p0.pc - 2
                    &&& p1.skips == p0.skips + 1
                    &&& (p0.labels@.contains_key(id@) ==> p1.warnings@.len() == p0.warnings@.len()
                        + 1 && p1.warnings@.drop_last() == p0.warnings@ && warning_is(
                        p1.warnings@.last(),
                        stmt.span,
                        SymbolKind::Label,
                        id@,
                    ))
                    &&& (!p0.labels@.contains_key(id@) ==> p1.warnings@ == p0.warnings@)
                },
                Stmt_::DeclareSprite(_, _) => {
                    &&& p1.labels@ == p0.labels@
                    &&& p1.pc == p0.pc - 2
                    &&& p1.skips == p0.skips + 1
                    &&& p1.warnings@ == p0.warnings@
                },
                _ => {
                    &&& p1.labels@ == p0.labels@
                    &&& p1.pc == p0.pc
                    &&& p1.skips == p0.skips
                    &&& p1.warnings@ == p0.warnings@
                },
            }
        }),
{
    match &stmt.node {
        Stmt_::DeclareLabel(id) => {
            if props.labels.contains(id) {
                props.warnings.push(
                    Warning { span: stmt.span, kind: SymbolKind::Label, name: copy_bytes(id) },
                );
                proof {
                    assert(props.warnings@.drop_last() =~= old(props).warnings@);
                }
            }
            props.labels.insert(copy_bytes(id), PROGRAM_START + props.pc - 2);
            props.pc = props.pc - 2;
            props.skips = props.skips + 1;
        },
        Stmt_::DeclareSprite(_, _) => {
            props.pc = props.pc - 2;
            props.skips = props.skips + 1;
        },
        _ => {},
    }
}

// ---------------------------------------------------------------------------
// Pass two: emission
// ---------------------------------------------------------------------------

/// The state pass two threads through the statements: the instruction bytes,
/// the sprite table as declared so far (for duplicate warnings), the sprite
/// bytes collected so far, the warnings, and the fixed code segment size.
pub struct Pass2 {
    pub ins: Vec<u8>,
    pub sprites: SymbolTable,
    pub sprite_data: Vec<u8>,
    pub warnings: Vec<Warning>,
    pub code_size: usize,
}

impl Pass2 {
    /// Appends one instruction's two bytes, high byte first.
    fn emit(&mut self, hi: u8, lo: u8)
        ensures
            final(self).ins@ == old(self).ins@ + seq![hi, lo],
            final(self).sprites@ == old(self).sprites@,
            final(self).sprite_data@ == old(self).sprite_data@,
            final(self).warnings@ == old(self).warnings@,
            final(self).code_size == old(self).code_size,
    {
        self.ins.push(hi);
        self.ins.push(lo);
        proof {
            assert(self.ins@ =~= old(self).ins@ + seq![hi, lo]);
        }
    }

    /// Appends a sprite's bytes to the sprite segment.
    fn append_sprite(&mut self, data: &Vec<u8>)
        ensures
            final(self).sprite_data@ == old(self).sprite_data@ + data@,
            final(self).ins@ == old(self).ins@,
            final(self).sprites@ == old(self).sprites@,
            final(self).warnings@ == old(self).warnings@,
            final(self).code_size == old(self).code_size,
    {
        let mut i: usize = 0;
        while i < data.len()
            invariant
                i <= data@.len(),
                self.sprite_data@ == old(self).sprite_data@ + data@.take(i as int),
                self.ins@ == old(self).ins@,
                self.sprites@ == old(self).sprites@,
                self.warnings@ == old(self).warnings@,
                self.code_size == old(self).code_size,
            decreases data@.len() - i,
        {
            self.sprite_data.push(data[i]);
            proof {
                assert(old(self).sprite_data@ + data@.take(i + 1 as int) =~= (old(
                    self,
                ).sprite_data@ + data@.take(i as int)).push(data@[i as int]));
            }
            i += 1;
        }
        proof {
            assert(old(self).sprite_data@ + data@.take(data@.len() as int) =~= old(
                self,
            ).sprite_data@ + data@);
        }
    }
}

/// One step of pass two: a label declaration emits nothing; a sprite
/// declaration records the sprite's address (warning on a duplicate) and
/// appends its bytes to the sprite segment; every other statement emits its
/// opcode, resolving references through the finished tables `labels` and
/// `resolved`, and reports the first undefined reference as a fatal error.
pub fn interp_stmt(
    props: &mut Pass2,
    labels: &SymbolTable,
    resolved: &SymbolTable,
    stmt: &Stmt,
) -> (r: Result<(), AsmError>)
    requires
        stmt_wf(stmt.node),
        0x200 + old(props).code_size + old(props).sprite_data@.len() <= 0xFFFF,
    ensures
        ({
            let p0 = *old(props);
            let p1 = *final(props);
            match stmt.node {
                Stmt_::DeclareLabel(_) => {
                    &&& r is Ok
                    &&& p1.ins@ == p0.ins@
                    &&& p1.sprites@ == p0.sprites@
                    &&& p1.sprite_data@ == p0.sprite_data@
                    &&& p1.warnings@ == p0.warnings@
                    &&& p1.code_size == p0.code_size
                },
                Stmt_::DeclareSprite(id, data) => {
                    &&& r is Ok
                    &&& p1.sprites@ == p0.sprites@.insert(
                        id@,
                        (0x200 + p0.code_size + p0.sprite_data@.len()) as u16,
                    )
                    &&& p1.sprite_data@ == p0.sprite_data@ + data@
                    &&& p1.ins@ == p0.ins@
                    &&& p1.code_size == p0.code_size
                    &&& (p0.sprites@.contains_key(id@) ==> p1.warnings@.len() == p0.warnings@.len()
                        + 1 && p1.warnings@.drop_last() == p0.warnings@ && warning_is(
                        p1.warnings@.last(),
                        stmt.span,
                        SymbolKind::Sprite,
                        id@,
                    ))
                    &&& (!p0.sprites@.contains_key(id@) ==> p1.warnings@ == p0.warnings@)
                },
                _ => {
                    &&& (r is Ok <==> stmt_ref_ok(stmt.node, labels@, resolved@))
                    &&& (r is Ok ==> p1.ins@ == p0.ins@ + enc_bytes(stmt.node, labels@, resolved@)
                        && p1.sprites@ == p0.sprites@ && p1.sprite_data@ == p0.sprite_data@
                        && p1.warnings@ == p0.warnings@ && p1.code_size == p0.code_size)
                    &&& (r matches Err(e) ==> p1.ins@ == p0.ins@ && p1.sprites@ == p0.sprites@
                        && p1.sprite_data@ == p0.sprite_data@ && p1.warnings@ == p0.warnings@
                        && p1.code_size == p0.code_size && e.span == stmt.span && match stmt.node {
                        Stmt_::JumpLabel(id) => e.kind == SymbolKind::Label && e.name@ == id@,
                        Stmt_::CallLabel(id) => e.kind == SymbolKind::Label && e.name@ == id@,
                        Stmt_::MoveIRegisterSprite(id) => e.kind == SymbolKind::Sprite && e.name@
                            == id@,
                        _ => false,
                    })
                },
            }
        }),
{
    match &stmt.node {
        Stmt_::DeclareLabel(_) => Ok(()),
        Stmt_::DeclareSprite(id, data) => {
            if props.sprites.contains(id) {
                props.warnings.push(
                    Warning { span: stmt.span, kind: SymbolKind::Sprite, name: copy_bytes(id) },
                );
                proof {
                    assert(props.warnings@.drop_last() =~= old(props).warnings@);
                }
            }
            let location: usize = (PROGRAM_START as usize) + props.code_size
                + props.sprite_data.len();
            props.sprites.insert(copy_bytes(id), location as u16);
            props.append_sprite(data);
            Ok(())
        },
        Stmt_::Nop => {
            props.emit(0x00, 0x00);
            Ok(())
        },
        Stmt_::Clear => {
            props.emit(0x00, 0xE0);
            Ok(())
        },
        Stmt_::Return => {
            props.emit(0x00, 0xEE);
            Ok(())
        },
        Stmt_::JumpInteger(nnn) => {
            let t: u16 = (*nnn / 256) % 16;
            props.emit(0x10 + (t as u8), (*nnn % 256) as u8);
            Ok(())
        },
        Stmt_::JumpLabel(id) => {
            match labels.get(id) {
                None => Err(
                    AsmError { span: stmt.span, kind: SymbolKind::Label, name: copy_bytes(id) },
                ),
                Some(pc) => {
                    let t: u16 = (pc / 256) % 16;
                    props.emit(0x10 + (t as u8), (pc % 256) as u8);
                    Ok(())
                },
            }
        },
        Stmt_::CallInteger(nnn) => {
            let t: u16 = (*nnn / 256) % 16;
            props.emit(0x20 + (t as u8), (*nnn % 256) as u8);
            Ok(())
        },
        Stmt_::CallLabel(id) => {
            match labels.get(id) {
                None => Err(
                    AsmError { span: stmt.span, kind: SymbolKind::Label, name: copy_bytes(id) },
                ),
                Some(pc) => {
                    let t: u16 = (pc / 256) % 16;
                    props.emit(0x20 + (t as u8), (pc % 256) as u8);
                    Ok(())
                },
            }
        },
        Stmt_::SkipEqualsInteger(x, nn) => {
            props.emit(0x30 + *x, *nn);
            Ok(())
        },
        Stmt_::SkipNotEqualsInteger(x, nn) => {
            props.emit(0x40 + *x, *nn);
            Ok(())
        },
        Stmt_::SkipEqualsRegister(x, y) => {
            props.emit(0x50 + *x, *y * 16);
            Ok(())
        },
        Stmt_::MoveRegisterInteger(x, nn) => {
            props.emit(0x60 + *x, *nn);
            Ok(())
        },
        Stmt_::AddRegisterInteger(x, nn) => {
            props.emit(0x70 + *x, *nn);
            Ok(())
        },
        Stmt_::MoveRegisterRegister(x, y) => {
            props.emit(0x80 + *x, *y * 16);
            Ok(())
        },
        Stmt_::Or(x, y) => {
            props.emit(0x80 + *x, *y * 16 + 1);
            Ok(())
        },
        Stmt_::And(x, y) => {
            props.emit(0x80 + *x, *y * 16 + 2);
            Ok(())
        },
        Stmt_::Xor(x, y) => {
            props.emit(0x80 + *x, *y * 16 + 3);
            Ok(())
        },
        Stmt_::AddRegisterRegister(x, y) => {
            props.emit(0x80 + *x, *y * 16 + 4);
            Ok(())
        },
        Stmt_::Subtract(x, y) => {
            props.emit(0x80 + *x, *y * 16 + 5);
            Ok(())
        },
        Stmt_::ShiftRight(x) => {
            props.emit(0x80 + *x, 0x06);
            Ok(())
        },
        Stmt_::SubtractReverse(x, y) => {
            props.emit(0x80 + *x, *y * 16 + 7);
            Ok(())
        },
        Stmt_::ShiftLeft(x) => {
            props.emit(0x80 + *x, 0x0E);
            Ok(())
        },
        Stmt_::SkipNotEqualsRegister(x, y) => {
            props.emit(0x90 + *x, *y * 16);
            Ok(())
        },
        Stmt_::MoveIRegisterInteger(nnn) => {
            let t: u16 = (*nnn / 256) % 16;
            props.emit(0xA0 + (t as u8), (*nnn % 256) as u8);
            Ok(())
        },
        Stmt_::MoveIRegisterSprite(id) => {
            match resolved.get(id) {
                None => Err(
                    AsmError { span: stmt.span, kind: SymbolKind::Sprite, name: copy_bytes(id) },
                ),
                Some(pc) => {
                    let t: u16 = (pc / 256) % 16;
                    props.emit(0xA0 + (t as u8), (pc % 256) as u8);
                    Ok(())
                },
            }
        },
        Stmt_::JumpRegister(nnn) => {
            let t: u16 = (*nnn / 256) % 16;
            props.emit(0xB0 + (t as u8), (*nnn % 256) as u8);
            Ok(())
        },
        Stmt_::Random(x, nn) => {
            props.emit(0xC0 + *x, *nn);
            Ok(())
        },
        Stmt_::Draw(x, y, d) => {
            props.emit(0xD0 + *x, *y * 16 + *d);
            Ok(())
        },
        Stmt_::SkipKeyPressed(x) => {
            props.emit(0xE0 + *x, 0x9E);
            Ok(())
        },
        Stmt_::SkipKeyNotPressed(x) => {
            props.emit(0xE0 + *x, 0xA1);
            Ok(())
        },
        Stmt_::MoveRegisterDelay(x) => {
            props.emit(0xF0 + *x, 0x07);
            Ok(())
        },
        Stmt_::WaitKeyPress(x) => {
            props.emit(0xF0 + *x, 0x0A);
            Ok(())
        },
        Stmt_::MoveDelayRegister(x) => {
            props.emit(0xF0 + *x, 0x15);
            Ok(())
        },
        Stmt_::MoveSoundRegister(x) => {
            props.emit(0xF0 + *x, 0x18);
            Ok(())
        },
        Stmt_::AddIRegisterRegister(x) => {
            props.emit(0xF0 + *x, 0x1E);
            Ok(())
        },
        Stmt_::Sprite(x) => {
            props.emit(0xF0 + *x, 0x29);
            Ok(())
        },
        Stmt_::Bcd(x) => {
            props.emit(0xF0 + *x, 0x33);
            Ok(())
        },
        Stmt_::Save(x) => {
            props.emit(0xF0 + *x, 0x55);
            Ok(())
        },
        Stmt_::Load(x) => {
            props.emit(0xF0 + *x, 0x65);
            Ok(())
        },
    }
}

// ---------------------------------------------------------------------------
// The assembler
// ---------------------------------------------------------------------------

/// Whether every statement of the program is well-formed. `interp` requires
/// this; a caller that cannot know it checks with this function first.
pub fn check_wf(program: &Program) -> (r: bool)
    ensures
        r == prog_wf(program.statements@),
{
    let ghost sview = program.statements@;
    let n = program.statements.len();
    let mut i: usize = 0;
    while i < n
        invariant
            i <= n,
            n == sview.len(),
            sview == program.statements@,
            forall|j: int| 0 <= j < i ==> stmt_wf(#[trigger] sview[j].node),
        decreases n - i,
    {
        let ok: bool = match &program.statements[i].node {
            Stmt_::SkipEqualsInteger(x, _) => *x <= 15,
            Stmt_::SkipNotEqualsInteger(x, _) => *x <= 15,
            Stmt_::SkipEqualsRegister(x, y) => *x <= 15 && *y <= 15,
            Stmt_::MoveRegisterInteger(x, _) => *x <= 15,
            Stmt_::AddRegisterInteger(x, _) => *x <= 15,
            Stmt_::MoveRegisterRegister(x, y) => *x <= 15 && *y <= 15,
            Stmt_::Or(x, y) => *x <= 15 && *y <= 15,
            Stmt_::And(x, y) => *x <= 15 && *y <= 15,
            Stmt_::Xor(x, y) => *x <= 15 && *y <= 15,
            Stmt_::AddRegisterRegister(x, y) => *x <= 15 && *y <= 15,
            Stmt_::Subtract(x, y) => *x <= 15 && *y <= 15,
            Stmt_::ShiftRight(x) => *x <= 15,
            Stmt_::SubtractReverse(x, y) => *x <= 15 && *y <= 15,
            Stmt_::ShiftLeft(x) => *x <= 15,
            Stmt_::SkipNotEqualsRegister(x, y) => *x <= 15 && *y <= 15,
            Stmt_::Random(x, _) => *x <= 15,
            Stmt_::Draw(x, y, d) => *x <= 15 && *y <= 15 && *d <= 15,
            Stmt_::SkipKeyPressed(x) => *x <= 15,
            Stmt_::SkipKeyNotPressed(x) => *x <= 15,
            Stmt_::MoveRegisterDelay(x) => *x <= 15,
            Stmt_::WaitKeyPress(x) => *x <= 15,
            Stmt_::MoveDelayRegister(x) => *x <= 15,
            Stmt_::MoveSoundRegister(x) => *x <= 15,
            Stmt_::AddIRegisterRegister(x) => *x <= 15,
            Stmt_::Sprite(x) => *x <= 15,
            Stmt_::Bcd(x) => *x <= 15,
            Stmt_::Save(x) => *x <= 15,
            Stmt_::Load(x) => *x <= 15,
            _ => true,
        };
        if !ok {
            return false;
        }
        i += 1;
    }
    true
}

/// Whether the program's image fits below the 12-bit address ceiling.
/// `interp` requires this; a caller that cannot know it checks with this
/// function first.
#[verifier::loop_isolation(false)]
pub fn check_fits(program: &Program) -> (r: bool)
    ensures
        r == layout_fits(program.statements@),
{
    let ghost sview = program.statements@;
    let n = program.statements.len();
    let mut emitted: usize = 0;
    let mut sprite_bytes: usize = 0;
    let mut i: usize = 0;
    while i < n
        invariant
            i <= n,
            emitted == emitted_before(sview, i as int),
            sprite_bytes == sprite_bytes_before(sview, i as int),
            0x200 + 2 * emitted + sprite_bytes <= 0x1000,
        decreases n - i,
    {
        match &program.statements[i].node {
            Stmt_::DeclareLabel(_) => {},
            Stmt_::DeclareSprite(_, data) => {
                if data.len() > 0x1000 {
                    proof {
                        lemma_emitted_mono(sview, i + 1 as int, n as int);
                        lemma_sprite_bytes_mono(sview, i + 1 as int, n as int);
                        lemma_emitted_bounds(sview, i + 1 as int);
                    }
                    return false;
                }
                if 0x200 + 2 * emitted + sprite_bytes + data.len() > 0x1000 {
                    proof {
                        lemma_emitted_mono(sview, i + 1 as int, n as int);
                        lemma_sprite_bytes_mono(sview, i + 1 as int, n as int);
                        lemma_emitted_bounds(sview, i + 1 as int);
                    }
                    return false;
                }
                sprite_bytes = sprite_bytes + data.len();
            },
            _ => {
                if 0x200 + 2 * (emitted + 1) + sprite_bytes > 0x1000 {
                    proof {
                        lemma_emitted_mono(sview, i + 1 as int, n as int);
                        lemma_sprite_bytes_mono(sview, i + 1 as int, n as int);
                        lemma_sprite_bytes_bounds(sview, i + 1 as int);
                    }
                    return false;
                }
                emitted = emitted + 1;
            },
        }
        i += 1;
    }
    true
}

/// Assembles a program into its output image.
///
/// The returned warnings report every duplicate label and, up to the point
/// assembly reached, every duplicate sprite, in the order the assembler sees
/// them. The result is the output bytes, or the first undefined label or
/// sprite reference in statement order. It is `Ok` exactly when every
/// reference is declared somewhere in the program.
#[verifier::loop_isolation(false)]
pub fn interp(program: &Program) -> (r: (Vec<Warning>, Result<Vec<u8>, AsmError>))
    requires
        prog_wf(program.statements@),
        layout_fits(program.statements@),
    ensures
        ({
            let stmts = program.statements@;
            &&& (r.1 is Ok <==> refs_ok(stmts))
            &&& (r.1 matches Ok(bytes) ==> bytes@ == output_bytes(stmts) && warnings_match(
                stmts,
                stmts.len() as int,
                r.0@,
            ))
            &&& (r.1 matches Err(e) ==> error_for(e, stmts) && warnings_match(
                stmts,
                first_bad_ref(stmts, 0),
                r.0@,
            ))
        }),
{
    let ghost sview = program.statements@;
    let ghost lm = labels_of(sview);
    let ghost sm = sprites_of(sview);
    let stmts = &program.statements;
    let n = stmts.len();

    // Pass one: lay out label addresses, count non-emitting statements.
    let mut p1 = Pass1 { labels: SymbolTable::new(), warnings: Vec::new(), pc: 0, skips: 0 };
    let mut i: usize = 0;
    while i < n
        invariant
            i <= n,
            p1.labels@ == labels_upto(sview, i as int),
            p1.pc == 2 * emitted_before(sview, i as int),
            p1.skips == i - emitted_before(sview, i as int),
            p1.warnings@.len() == dup_label_idxs(sview, i as int).len(),
            forall|k: int|
                0 <= k < dup_label_idxs(sview, i as int).len() ==> warning_for(
                    #[trigger] p1.warnings@[k],
                    sview,
                    dup_label_idxs(sview, i as int)[k],
                    SymbolKind::Label,
                ),
        decreases n - i,
    {
        proof {
            lemma_emitted_bounds(sview, i as int);
            lemma_emitted_mono(sview, i as int, n as int);
            lemma_sprite_bytes_bounds(sview, n as int);
        }
        let ghost warnings0 = p1.warnings@;
        p1.pc = p1.pc + 2;
        interp_label(&mut p1, &stmts[i]);
        proof {
            let li1 = dup_label_idxs(sview, i + 1 as int);
            let li0 = dup_label_idxs(sview, i as int);
            if sview[i as int].node is DeclareLabel {
                if is_dup_label(sview, i as int) {
                    assert(li1 =~= li0.push(i as int));
                    assert forall|k: int| 0 <= k < li1.len() implies warning_for(
                        #[trigger] p1.warnings@[k],
                        sview,
                        li1[k],
                        SymbolKind::Label,
                    ) by {
                        if k < li0.len() {
                            assert(p1.warnings@[k] == warnings0[k]);
                        } else {
                            assert(p1.warnings@[k] == p1.warnings@.last());
                        }
                    }
                } else {
                    assert(li1 =~= li0);
                }
            } else {
                assert(li1 =~= li0);
            }
        }
        i += 1;
    }

    // The code segment's size follows from pass one.
    let code_bytes: usize = (n - p1.skips) * 2;
    proof {
        lemma_emitted_bounds(sview, n as int);
        assert(code_bytes == code_size(sview));
        lemma_sprite_bytes_bounds(sview, n as int);
    }

    // Lay the sprite segment out after the code: each sprite's address is
    // the code's end plus the sprite bytes declared before it.
    let mut resolved = SymbolTable::new();
    let mut off: usize = 0;
    let mut i2: usize = 0;
    while i2 < n
        invariant
            i2 <= n,
            resolved@ == sprites_upto(sview, i2 as int),
            off == sprite_bytes_before(sview, i2 as int),
        decreases n - i2,
    {
        proof {
            lemma_sprite_bytes_bounds(sview, i2 as int);
            lemma_sprite_bytes_mono(sview, i2 + 1 as int, n as int);
        }
        match &stmts[i2].node {
            Stmt_::DeclareSprite(id, data) => {
                let location: usize = (PROGRAM_START as usize) + code_bytes + off;
                resolved.insert(copy_bytes(id), location as u16);
                off = off + data.len();
            },
            _ => {},
        }
        i2 += 1;
    }
    proof {
        assert(resolved@ == sm);
        assert(p1.labels@ == lm);
    }

    // Pass two: emit opcodes and sprite data, resolving references.
    let labels_tab = p1.labels;
    let mut p2 = Pass2 {
        ins: Vec::new(),
        sprites: SymbolTable::new(),
        sprite_data: Vec::new(),
        warnings: p1.warnings,
        code_size: code_bytes,
    };
    let mut i3: usize = 0;
    while i3 < n
        invariant
            i3 <= n,
            p2.ins@ == code_upto(sview, i3 as int, lm, sm),
            p2.sprite_data@ == sprite_data_upto(sview, i3 as int),
            p2.sprites@ == sprites_upto(sview, i3 as int),
            p2.code_size == code_bytes,
            warnings_match(sview, i3 as int, p2.warnings@),
            forall|j: int| 0 <= j < i3 ==> stmt_ref_ok(#[trigger] sview[j].node, lm, sm),
        decreases n - i3,
    {
        proof {
            lemma_sprite_bytes_bounds(sview, i3 as int);
            lemma_sprite_bytes_mono(sview, i3 as int, n as int);
            lemma_sprite_data_upto_len(sview, i3 as int);
        }
        let ghost warnings0 = p2.warnings@;
        let stmt = &stmts[i3];
        match interp_stmt(&mut p2, &labels_tab, &resolved, stmt) {
            Ok(()) => {
                proof {
                    let li = dup_label_idxs(sview, sview.len() as int);
                    let si1 = dup_sprite_idxs(sview, i3 + 1 as int);
                    let si0 = dup_sprite_idxs(sview, i3 as int);
                    assert(code_upto(sview, i3 + 1 as int, lm, sm) == code_upto(
                        sview,
                        i3 as int,
                        lm,
                        sm,
                    ) + (if stmt_emits(sview[i3 as int].node) {
                        enc_bytes(sview[i3 as int].node, lm, sm)
                    } else {
                        Seq::<u8>::empty()
                    }));
                    if !stmt_emits(sview[i3 as int].node) {
                        assert(code_upto(sview, i3 + 1 as int, lm, sm) =~= code_upto(
                            sview,
                            i3 as int,
                            lm,
                            sm,
                        ));
                    }
                    if sview[i3 as int].node is DeclareSprite {
                        if is_dup_sprite(sview, i3 as int) {
                            assert(si1 =~= si0.push(i3 as int));
                            assert forall|k: int| 0 <= k < li.len() implies warning_for(
                                #[trigger] p2.warnings@[k],
                                sview,
                                li[k],
                                SymbolKind::Label,
                            ) by {
                                assert(p2.warnings@[k] == warnings0[k]);
                            }
                            assert forall|k: int| 0 <= k < si1.len() implies warning_for(
                                #[trigger] p2.warnings@[li.len() + k],
                                sview,
                                si1[k],
                                SymbolKind::Sprite,
                            ) by {
                                if k < si0.len() {
                                    assert(p2.warnings@[li.len() + k] == warnings0[li.len() + k]);
                                } else {
                                    assert(p2.warnings@[li.len() + k] == p2.warnings@.last());
                                }
                            }
                        } else {
                            assert(si1 =~= si0);
                        }
                        assert(p2.sprite_data@ =~= sprite_data_upto(sview, i3 + 1 as int));
                    } else {
                        assert(si1 =~= si0);
                        assert(p2.sprite_data@ =~= sprite_data_upto(sview, i3 + 1 as int));
                        assert(p2.sprites@ == sprites_upto(sview, i3 + 1 as int));
                    }
                }
                i3 += 1;
            },
            Err(e) => {
                proof {
                    assert(!stmt_ref_ok(sview[i3 as int].node, lm, sm));
                    lemma_first_bad_skip(sview, 0, i3 as int);
                    assert(first_bad_ref(sview, 0) == i3 as int);
                    assert(!refs_ok(sview));
                }
                return (p2.warnings, Err(e));
            },
        }
    }
    let mut out = p2.ins;
    extend_bytes(&mut out, &p2.sprite_data);
    (p2.warnings, Ok(out))
}

// ---------------------------------------------------------------------------
// Laws of the layout and the encoding
// ---------------------------------------------------------------------------

/// How many of the first `n` statements declare a label.
pub open spec fn label_decls(stmts: Seq<Stmt>, n: int) -> int
    decreases n,
{
    if n <= 0 {
        0
    } else {
        label_decls(stmts, n - 1) + if stmts[n - 1].node is DeclareLabel {
            1int
        } else {
            0int
        }
    }
}

/// How many of the first `n` statements declare a sprite.
pub open spec fn sprite_decls(stmts: Seq<Stmt>, n: int) -> int
    decreases n,
{
    if n <= 0 {
        0
    } else {
        sprite_decls(stmts, n - 1) + if stmts[n - 1].node is DeclareSprite {
            1int
        } else {
            0int
        }
    }
}

/// The code segment of the first `n` statements is two bytes per emitted
/// instruction.
pub proof fn lemma_code_upto_len(
    stmts: Seq<Stmt>,
    n: int,
    lm: Map<Seq<u8>, u16>,
    sm: Map<Seq<u8>, u16>,
)
    requires
        0 <= n,
    ensures
        code_upto(stmts, n, lm, sm).len() == 2 * emitted_before(stmts, n),
    decreases n,
{
    if n > 0 {
        lemma_code_upto_len(stmts, n - 1, lm, sm);
    }
}

/// Every statement either emits one instruction or declares a label or a
/// sprite, so the emitted count is the statement count less the declarations.
pub proof fn lemma_emitted_is_non_decls(stmts: Seq<Stmt>, n: int)
    requires
        0 <= n,
    ensures
        emitted_before(stmts, n) == n - label_decls(stmts, n) - sprite_decls(stmts, n),
    decreases n,
{
    if n > 0 {
        lemma_emitted_is_non_decls(stmts, n - 1);
    }
}

/// The output's length is two bytes per statement that is not a label or
/// sprite declaration, plus all declared sprite bytes.
pub proof fn lemma_output_len(stmts: Seq<Stmt>)
    ensures
        output_bytes(stmts).len() == 2 * (stmts.len() - label_decls(stmts, stmts.len() as int)
            - sprite_decls(stmts, stmts.len() as int)) + sprite_bytes_before(
            stmts,
            stmts.len() as int,
        ),
{
    lemma_code_upto_len(stmts, stmts.len() as int, labels_of(stmts), sprites_of(stmts));
    lemma_emitted_is_non_decls(stmts, stmts.len() as int);
    lemma_sprite_data_upto_len(stmts, stmts.len() as int);
}

/// Statements that emit nothing do not move the emitted count.
pub proof fn lemma_emitted_constant_over_non_emitting(stmts: Seq<Stmt>, i: int, j: int)
    requires
        0 <= i <= j <= stmts.len(),
        forall|m: int| i <= m < j ==> !stmt_emits(#[trigger] stmts[m].node),
    ensures
        emitted_before(stmts, i) == emitted_before(stmts, j),
    decreases j - i,
{
    if i < j {
        lemma_emitted_constant_over_non_emitting(stmts, i, j - 1);
    }
}

/// A label declared at statement `i` denotes the address of the next emitted
/// instruction: when statement `j` is the first emitting statement at or
/// after `i` and it is the `k`-th emitted instruction (0-based), the label's
/// address is `0x200 + 2 k`.
pub proof fn lemma_label_addr_is_next_emitted(stmts: Seq<Stmt>, i: int, j: int)
    requires
        0 <= i <= j < stmts.len(),
        stmts[i].node is DeclareLabel,
        stmt_emits(stmts[j].node),
        forall|m: int| i <= m < j ==> !stmt_emits(#[trigger] stmts[m].node),
    ensures
        label_addr(stmts, i) == 0x200 + 2 * emitted_before(stmts, j),
{
    lemma_emitted_constant_over_non_emitting(stmts, i, j);
}

/// Later statements that do not redeclare a label leave its address alone.
pub proof fn lemma_labels_unchanged_after(stmts: Seq<Stmt>, id: Seq<u8>, i: int, n: int)
    requires
        0 <= i < n <= stmts.len(),
        stmts[i].node matches Stmt_::DeclareLabel(v) && v@ == id,
        forall|j: int|
            i < j < n ==> !(#[trigger] stmts[j].node matches Stmt_::DeclareLabel(w) && w@ == id),
    ensures
        labels_upto(stmts, n).contains_key(id),
        labels_upto(stmts, n)[id] == label_addr(stmts, i) as u16,
    decreases n - i,
{
    if n == i + 1 {
    } else {
        lemma_labels_unchanged_after(stmts, id, i, n - 1);
    }
}

/// A label resolves to the address of the instruction emitted next: when
/// statement `i` is the last declaration of `id` and statement `j` is the
/// first emitting statement at or after it, the `k`-th emitted overall, the
/// symbol table sends `id` to `0x200 + 2 k`.
pub proof fn lemma_label_resolves_to_next_emitted(stmts: Seq<Stmt>, id: Seq<u8>, i: int, j: int)
    requires
        0 <= i <= j < stmts.len(),
        stmts[i].node matches Stmt_::DeclareLabel(v) && v@ == id,
        forall|m: int|
            i < m < stmts.len() ==> !(#[trigger] stmts[m].node matches Stmt_::DeclareLabel(w)
                && w@ == id),
        stmt_emits(stmts[j].node),
        forall|m: int| i <= m < j ==> !stmt_emits(#[trigger] stmts[m].node),
    ensures
        labels_of(stmts).contains_key(id),
        labels_of(stmts)[id] == (0x200 + 2 * emitted_before(stmts, j)) as u16,
{
    lemma_last_label_wins(stmts, id, i);
    lemma_label_addr_is_next_emitted(stmts, i, j);
}

/// The last declaration of a label is the one the symbol table reflects.
pub proof fn lemma_last_label_wins(stmts: Seq<Stmt>, id: Seq<u8>, i: int)
    requires
        0 <= i < stmts.len(),
        stmts[i].node matches Stmt_::DeclareLabel(v) && v@ == id,
        forall|j: int|
            i < j < stmts.len() ==> !(#[trigger] stmts[j].node matches Stmt_::DeclareLabel(w)
                && w@ == id),
    ensures
        labels_of(stmts).contains_key(id),
        labels_of(stmts)[id] == label_addr(stmts, i) as u16,
{
    lemma_labels_unchanged_after(stmts, id, i, stmts.len() as int);
}

/// Later statements that do not redeclare a sprite leave its address alone.
pub proof fn lemma_sprites_unchanged_after(stmts: Seq<Stmt>, id: Seq<u8>, i: int, n: int)
    requires
        0 <= i < n <= stmts.len(),
        stmts[i].node matches Stmt_::DeclareSprite(v, _) && v@ == id,
        forall|j: int|
            i < j < n ==> !(#[trigger] stmts[j].node matches Stmt_::DeclareSprite(w, _) && w@
                == id),
    ensures
        sprites_upto(stmts, n).contains_key(id),
        sprites_upto(stmts, n)[id] == sprite_addr(stmts, i) as u16,
    decreases n - i,
{
    if n == i + 1 {
    } else {
        lemma_sprites_unchanged_after(stmts, id, i, n - 1);
    }
}

/// The last declaration of a sprite is the one the symbol table reflects.
pub proof fn lemma_last_sprite_wins(stmts: Seq<Stmt>, id: Seq<u8>, i: int)
    requires
        0 <= i < stmts.len(),
        stmts[i].node matches Stmt_::DeclareSprite(v, _) && v@ == id,
        forall|j: int|
            i < j < stmts.len() ==> !(#[trigger] stmts[j].node matches Stmt_::DeclareSprite(w, _)
                && w@ == id),
    ensures
        sprites_of(stmts).contains_key(id),
        sprites_of(stmts)[id] == sprite_addr(stmts, i) as u16,
{
    lemma_sprites_unchanged_after(stmts, id, i, stmts.len() as int);
}

/// The sprite segment holds each declaration's bytes at its cumulative
/// offset, duplicates included.
pub proof fn lemma_sprite_segment_slice(stmts: Seq<Stmt>, i: int, n: int, data: Seq<u8>)
    requires
        0 <= i < n <= stmts.len(),
        stmts[i].node matches Stmt_::DeclareSprite(_, d) && d@ == data,
    ensures
        sprite_bytes_before(stmts, i) + data.len() <= sprite_data_upto(stmts, n).len(),
        sprite_data_upto(stmts, n).subrange(
            sprite_bytes_before(stmts, i),
            sprite_bytes_before(stmts, i) + data.len() as int,
        ) == data,
    decreases n - i,
{
    lemma_sprite_bytes_bounds(stmts, i);
    lemma_sprite_data_upto_len(stmts, n);
    lemma_sprite_data_upto_len(stmts, i);
    if n == i + 1 {
        assert(sprite_data_upto(stmts, n) == sprite_data_upto(stmts, i) + data);
        assert(sprite_data_upto(stmts, n).subrange(
            sprite_bytes_before(stmts, i),
            sprite_bytes_before(stmts, i) + data.len() as int,
        ) =~= data);
    } else {
        lemma_sprite_segment_slice(stmts, i, n - 1, data);
        lemma_sprite_data_upto_len(stmts, n - 1);
        assert(sprite_data_upto(stmts, n).subrange(
            sprite_bytes_before(stmts, i),
            sprite_bytes_before(stmts, i) + data.len() as int,
        ) =~= sprite_data_upto(stmts, n - 1).subrange(
            sprite_bytes_before(stmts, i),
            sprite_bytes_before(stmts, i) + data.len() as int,
        ));
    }
}

/// A declared sprite's bytes sit in the output image exactly at its address:
/// the bytes at file offsets `sprites[id] - 0x200` onward are its data.
pub proof fn lemma_sprite_bytes_at_address(stmts: Seq<Stmt>, i: int, data: Seq<u8>)
    requires
        0 <= i < stmts.len(),
        stmts[i].node matches Stmt_::DeclareSprite(_, d) && d@ == data,
    ensures
        output_bytes(stmts).subrange(
            sprite_addr(stmts, i) - 0x200,
            sprite_addr(stmts, i) - 0x200 + data.len() as int,
        ) == data,
{
    let n = stmts.len() as int;
    let lm = labels_of(stmts);
    let sm = sprites_of(stmts);
    lemma_code_upto_len(stmts, n, lm, sm);
    lemma_sprite_segment_slice(stmts, i, n, data);
    lemma_sprite_bytes_bounds(stmts, i);
    lemma_emitted_bounds(stmts, n);
    assert(output_bytes(stmts).subrange(
        sprite_addr(stmts, i) - 0x200,
        sprite_addr(stmts, i) - 0x200 + data.len() as int,
    ) =~= sprite_data_upto(stmts, n).subrange(
        sprite_bytes_before(stmts, i),
        sprite_bytes_before(stmts, i) + data.len() as int,
    ));
}

// ---------------------------------------------------------------------------
// A disassembler for the opcode table, and the encode round trip
// ---------------------------------------------------------------------------

/// The statement a big-endian opcode decodes to, per the opcode table.
/// Integer forms stand in for resolved references; patterns outside the
/// table decode to `Nop`.
pub open spec fn decode(hi: u8, lo: u8) -> Stmt_ {
    let fam = (hi as int) / 16;
    let x = ((hi as int) % 16) as u8;
    let y = ((lo as int) / 16) as u8;
    let sub = (lo as int) % 16;
    let nnn = (((hi as int) % 16) * 256 + lo as int) as u16;
    if fam == 0 {
        if lo == 0xE0 {
            Stmt_::Clear
        } else if lo == 0xEE {
            Stmt_::Return
        } else {
            Stmt_::Nop
        }
    } else if fam == 1 {
        Stmt_::JumpInteger(nnn)
    } else if fam == 2 {
        Stmt_::CallInteger(nnn)
    } else if fam == 3 {
        Stmt_::SkipEqualsInteger(x, lo)
    } else if fam == 4 {
        Stmt_::SkipNotEqualsInteger(x, lo)
    } else if fam == 5 {
        if sub == 0 {
            Stmt_::SkipEqualsRegister(x, y)
        } else {
            Stmt_::Nop
        }
    } else if fam == 6 {
        Stmt_::MoveRegisterInteger(x, lo)
    } else if fam == 7 {
        Stmt_::AddRegisterInteger(x, lo)
    } else if fam == 8 {
        if sub == 0 {
            Stmt_::MoveRegisterRegister(x, y)
        } else if sub == 1 {
            Stmt_::Or(x, y)
        } else if sub == 2 {
            Stmt_::And(x, y)
        } else if sub == 3 {
            Stmt_::Xor(x, y)
        } else if sub == 4 {
            Stmt_::AddRegisterRegister(x, y)
        } else if sub == 5 {
            Stmt_::Subtract(x, y)
        } else if sub == 6 {
            Stmt_::ShiftRight(x)
        } else if sub == 7 {
            Stmt_::SubtractReverse(x, y)
        } else if sub == 14 {
            Stmt_::ShiftLeft(x)
        } else {
            Stmt_::Nop
        }
    } else if fam == 9 {
        if sub == 0 {
            Stmt_::SkipNotEqualsRegister(x, y)
        } else {
            Stmt_::Nop
        }
    } else if fam == 10 {
        Stmt_::MoveIRegisterInteger(nnn)
    } else if fam == 11 {
        Stmt_::JumpRegister(nnn)
    } else if fam == 12 {
        Stmt_::Random(x, lo)
    } else if fam == 13 {
        Stmt_::Draw(x, y, sub as u8)
    } else if fam == 14 {
        if lo == 0x9E {
            Stmt_::SkipKeyPressed(x)
        } else if lo == 0xA1 {
            Stmt_::SkipKeyNotPressed(x)
        } else {
            Stmt_::Nop
        }
    } else {
        if lo == 0x07 {
            Stmt_::MoveRegisterDelay(x)
        } else if lo == 0x0A {
            Stmt_::WaitKeyPress(x)
        } else if lo == 0x15 {
            Stmt_::MoveDelayRegister(x)
        } else if lo == 0x18 {
            Stmt_::MoveSoundRegister(x)
        } else if lo == 0x1E {
            Stmt_::AddIRegisterRegister(x)
        } else if lo == 0x29 {
            Stmt_::Sprite(x)
        } else if lo == 0x33 {
            Stmt_::Bcd(x)
        } else if lo == 0x55 {
            Stmt_::Save(x)
        } else if lo == 0x65 {
            Stmt_::Load(x)
        } else {
            Stmt_::Nop
        }
    }
}

/// A statement's opcode content: label and sprite references become the
/// resolved address, and addresses are masked to their 12 bits, which is all
/// an opcode carries.
pub open spec fn resolve(s: Stmt_, lm: Map<Seq<u8>, u16>, sm: Map<Seq<u8>, u16>) -> Stmt_ {
    match s {
        Stmt_::JumpInteger(nnn) => Stmt_::JumpInteger((((nnn as int)) % 4096) as u16),
        Stmt_::JumpLabel(id) => Stmt_::JumpInteger(((lm[id@] as int) % 4096) as u16),
        Stmt_::CallInteger(nnn) => Stmt_::CallInteger((((nnn as int)) % 4096) as u16),
        Stmt_::CallLabel(id) => Stmt_::CallInteger(((lm[id@] as int) % 4096) as u16),
        Stmt_::MoveIRegisterInteger(nnn) => Stmt_::MoveIRegisterInteger(
            (((nnn as int)) % 4096) as u16,
        ),
        Stmt_::MoveIRegisterSprite(id) => Stmt_::MoveIRegisterInteger(
            ((sm[id@] as int) % 4096) as u16,
        ),
        Stmt_::JumpRegister(nnn) => Stmt_::JumpRegister((((nnn as int)) % 4096) as u16),
        _ => s,
    }
}

/// Splitting a byte into its two nibbles.
proof fn lemma_split16(a: int, b: int)
    requires
        0 <= a,
        0 <= b < 16,
    ensures
        (a * 16 + b) / 16 == a,
        (a * 16 + b) % 16 == b,
{
    vstd::arithmetic::div_mod::lemma_fundamental_div_mod_converse(a * 16 + b, 16, a, b);
}

/// The twelve low bits of a value, recovered from its middle nibble and its
/// low byte.
proof fn lemma_mod4096(v: int)
    requires
        0 <= v,
    ensures
        ((v / 256) % 16) * 256 + v % 256 == v % 4096,
        0 <= (v / 256) % 16 < 16,
        0 <= v % 256 < 256,
        0 <= v % 4096 < 4096,
{
    let s = v / 256;
    let r = v % 256;
    vstd::arithmetic::div_mod::lemma_fundamental_div_mod(v, 256);
    vstd::arithmetic::div_mod::lemma_mod_bound(v, 256);
    vstd::arithmetic::div_mod::lemma_div_pos_is_pos(v, 256);
    let q = s % 16;
    let t = s / 16;
    vstd::arithmetic::div_mod::lemma_fundamental_div_mod(s, 16);
    vstd::arithmetic::div_mod::lemma_mod_bound(s, 16);
    vstd::arithmetic::div_mod::lemma_div_pos_is_pos(s, 16);
    assert(v == 4096 * t + (q * 256 + r)) by (nonlinear_arith)
        requires
            v == 256 * s + r,
            s == 16 * t + q,
    ;
    vstd::arithmetic::div_mod::lemma_fundamental_div_mod_converse(v, 4096, t, q * 256 + r);
}

/// Decoding inverts encoding: a well-formed emitting statement's two opcode
/// bytes decode back to its opcode content, references resolved.
pub proof fn lemma_decode_encode(s: Stmt_, lm: Map<Seq<u8>, u16>, sm: Map<Seq<u8>, u16>)
    requires
        stmt_wf(s),
        stmt_emits(s),
        stmt_ref_ok(s, lm, sm),
    ensures
        decode(enc_pair(s, lm, sm).0, enc_pair(s, lm, sm).1) == resolve(s, lm, sm),
{
    let hi = enc_pair(s, lm, sm).0;
    let lo = enc_pair(s, lm, sm).1;
    match s {
        Stmt_::Nop => {
            lemma_split16(0, 0);
        },
        Stmt_::Clear => {
            lemma_split16(0, 0);
        },
        Stmt_::Return => {
            lemma_split16(0, 0);
        },
        Stmt_::JumpInteger(nnn) => {
            lemma_mod4096(nnn as int);
            lemma_split16(1, ((nnn as int) / 256) % 16);
        },
        Stmt_::JumpLabel(id) => {
            lemma_mod4096(lm[id@] as int);
            lemma_split16(1, ((lm[id@] as int) / 256) % 16);
        },
        Stmt_::CallInteger(nnn) => {
            lemma_mod4096(nnn as int);
            lemma_split16(2, ((nnn as int) / 256) % 16);
        },
        Stmt_::CallLabel(id) => {
            lemma_mod4096(lm[id@] as int);
            lemma_split16(2, ((lm[id@] as int) / 256) % 16);
        },
        Stmt_::SkipEqualsInteger(x, nn) => {
            lemma_split16(3, x as int);
        },
        Stmt_::SkipNotEqualsInteger(x, nn) => {
            lemma_split16(4, x as int);
        },
        Stmt_::SkipEqualsRegister(x, y) => {
            lemma_split16(5, x as int);
            lemma_split16(y as int, 0);
        },
        Stmt_::MoveRegisterInteger(x, nn) => {
            lemma_split16(6, x as int);
        },
        Stmt_::AddRegisterInteger(x, nn) => {
            lemma_split16(7, x as int);
        },
        Stmt_::MoveRegisterRegister(x, y) => {
            lemma_split16(8, x as int);
            lemma_split16(y as int, 0);
        },
        Stmt_::Or(x, y) => {
            lemma_split16(8, x as int);
            lemma_split16(y as int, 1);
        },
        Stmt_::And(x, y) => {
            lemma_split16(8, x as int);
            lemma_split16(y as int, 2);
        },
        Stmt_::Xor(x, y) => {
            lemma_split16(8, x as int);
            lemma_split16(y as int, 3);
        },
        Stmt_::AddRegisterRegister(x, y) => {
            lemma_split16(8, x as int);
            lemma_split16(y as int, 4);
        },
        Stmt_::Subtract(x, y) => {
            lemma_split16(8, x as int);
            lemma_split16(y as int, 5);
        },
        Stmt_::ShiftRight(x) => {
            lemma_split16(8, x as int);
            lemma_split16(0, 6);
        },
        Stmt_::SubtractReverse(x, y) => {
            lemma_split16(8, x as int);
            lemma_split16(y as int, 7);
        },
        Stmt_::ShiftLeft(x) => {
            lemma_split16(8, x as int);
            lemma_split16(0, 14);
        },
        Stmt_::SkipNotEqualsRegister(x, y) => {
            lemma_split16(9, x as int);
            lemma_split16(y as int, 0);
        },
        Stmt_::MoveIRegisterInteger(nnn) => {
            lemma_mod4096(nnn as int);
            lemma_split16(10, ((nnn as int) / 256) % 16);
        },
        Stmt_::MoveIRegisterSprite(id) => {
            lemma_mod4096(sm[id@] as int);
            lemma_split16(10, ((sm[id@] as int) / 256) % 16);
        },
        Stmt_::JumpRegister(nnn) => {
            lemma_mod4096(nnn as int);
            lemma_split16(11, ((nnn as int) / 256) % 16);
        },
        Stmt_::Random(x, nn) => {
            lemma_split16(12, x as int);
        },
        Stmt_::Draw(x, y, d) => {
            lemma_split16(13, x as int);
            lemma_split16(y as int, d as int);
        },
        Stmt_::SkipKeyPressed(x) => {
            lemma_split16(14, x as int);
        },
        Stmt_::SkipKeyNotPressed(x) => {
            lemma_split16(14, x as int);
        },
        Stmt_::MoveRegisterDelay(x) => {
            lemma_split16(15, x as int);
        },
        Stmt_::WaitKeyPress(x) => {
            lemma_split16(15, x as int);
        },
        Stmt_::MoveDelayRegister(x) => {
            lemma_split16(15, x as int);
        },
        Stmt_::MoveSoundRegister(x) => {
            lemma_split16(15, x as int);
        },
        Stmt_::AddIRegisterRegister(x) => {
            lemma_split16(15, x as int);
        },
        Stmt_::Sprite(x) => {
            lemma_split16(15, x as int);
        },
        Stmt_::Bcd(x) => {
            lemma_split16(15, x as int);
        },
        Stmt_::Save(x) => {
            lemma_split16(15, x as int);
        },
        Stmt_::Load(x) => {
            lemma_split16(15, x as int);
        },
        Stmt_::DeclareSprite(_, _) => {},
        Stmt_::DeclareLabel(_) => {},
    }
}

/// The bytes at positions `2 k` and `2 k + 1` of the code segment are the
/// `k`-th emitted instruction's opcode.
pub proof fn lemma_code_bytes_at(
    stmts: Seq<Stmt>,
    n: int,
    i: int,
    lm: Map<Seq<u8>, u16>,
    sm: Map<Seq<u8>, u16>,
)
    requires
        0 <= i < n <= stmts.len(),
        stmt_emits(stmts[i].node),
    ensures
        ({
            let k = emitted_before(stmts, i);
            &&& 2 * k + 2 <= code_upto(stmts, n, lm, sm).len()
            &&& code_upto(stmts, n, lm, sm)[2 * k] == enc_pair(stmts[i].node, lm, sm).0
            &&& code_upto(stmts, n, lm, sm)[2 * k + 1] == enc_pair(stmts[i].node, lm, sm).1
        }),
    decreases n - i,
{
    lemma_code_upto_len(stmts, n, lm, sm);
    lemma_code_upto_len(stmts, i, lm, sm);
    lemma_code_upto_len(stmts, i + 1, lm, sm);
    lemma_emitted_bounds(stmts, i);
    if n == i + 1 {
    } else {
        lemma_code_bytes_at(stmts, n - 1, i, lm, sm);
        lemma_code_upto_len(stmts, n - 1, lm, sm);
        lemma_emitted_mono(stmts, i + 1, n - 1);
    }
}

/// The output image decodes back to the emitted instructions: for the `k`-th
/// emitted instruction (0-based), the bytes at positions `2 k` and `2 k + 1`
/// decode to its opcode content.
pub proof fn lemma_output_round_trip(stmts: Seq<Stmt>, i: int)
    requires
        prog_wf(stmts),
        refs_ok(stmts),
        0 <= i < stmts.len(),
        stmt_emits(stmts[i].node),
    ensures
        ({
            let k = emitted_before(stmts, i);
            let lm = labels_of(stmts);
            let sm = sprites_of(stmts);
            &&& 2 * k + 2 <= output_bytes(stmts).len()
            &&& decode(output_bytes(stmts)[2 * k], output_bytes(stmts)[2 * k + 1]) == resolve(
                stmts[i].node,
                lm,
                sm,
            )
        }),
{
    let lm = labels_of(stmts);
    let sm = sprites_of(stmts);
    let n = stmts.len() as int;
    lemma_code_bytes_at(stmts, n, i, lm, sm);
    lemma_code_upto_len(stmts, n, lm, sm);
    lemma_emitted_bounds(stmts, i);
    lemma_emitted_mono(stmts, i + 1, n);
    let k = emitted_before(stmts, i);
    assert(output_bytes(stmts)[2 * k] == code_upto(stmts, n, lm, sm)[2 * k]);
    assert(output_bytes(stmts)[2 * k + 1] == code_upto(stmts, n, lm, sm)[2 * k + 1]);
    lemma_decode_encode(stmts[i].node, lm, sm);
}

/// Where a reference stands does not affect what it encodes to: two
/// references to the same name yield the same opcode bytes, so forward and
/// backward references resolve identically.
pub proof fn lemma_reference_position_irrelevant(
    s1: Stmt_,
    s2: Stmt_,
    lm: Map<Seq<u8>, u16>,
    sm: Map<Seq<u8>, u16>,
)
    requires
        ({
            ||| (s1 matches Stmt_::JumpLabel(a) && s2 matches Stmt_::JumpLabel(b) && a@ == b@)
            ||| (s1 matches Stmt_::CallLabel(a) && s2 matches Stmt_::CallLabel(b) && a@ == b@)
            ||| (s1 matches Stmt_::MoveIRegisterSprite(a) && s2 matches Stmt_::MoveIRegisterSprite(
                b,
            ) && a@ == b@)
        }),
    ensures
        enc_bytes(s1, lm, sm) == enc_bytes(s2, lm, sm),
{
}

} // verus!
