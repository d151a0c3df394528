//! The second pass: turns each statement into opcode and operand bytes while
//! the program counter runs, and fixes the address of every label.

use vstd::prelude::*;
use crate::literal::{
    address_size, decode_u16, decode_u8, size_of, starts_with, u16_decode, u8_decode, AddressSize,
};
use crate::opcodes::{
    find_mnemonic, format_opcode, mnemonic_index, opcode_of, ABSOLUTE, ABSOLUTE_X, ABSOLUTE_Y,
    ACCUMULATOR, IMMEDIATE, IMPLIED, INDEXED_INDIRECT, INDIRECT, INDIRECT_INDEXED, JMP, JSR,
    RELATIVE, ZEROPAGE, ZEROPAGE_X, ZEROPAGE_Y,
};
use crate::text::{
    ends_with, ends_with_chars, pad_right, push_padded, same_chars, strip_prefix,
    strip_prefix_chars, strip_suffix, strip_suffix_chars, views,
};
use crate::tokenize::{
    define_names, define_views, find_define, find_label, find_name, label_names, label_views,
    line_views, AsmError, Define, DefineView, Label, LabelView, TokenLine, TokenLineView,
};

verus! {

/// One element of the encoded byte stream.
#[derive(Clone, Copy, Debug, PartialEq, Eq, Structural)]
pub enum ByteToken {
    /// A byte whose value is known.
    Byte(u8),
    /// A reference to the label at this index of the label table, resolved
    /// when the stream is rendered.
    LabelRef(usize),
    /// Sets the location counter.
    Origin(u16),
}

/// The encoded program: per statement, its bytes and its annotation.
pub struct MachineCode {
    /// Per statement: its address, label, mnemonic and operand, for the
    /// debug listing.
    pub debug_info: Vec<Vec<char>>,
    /// Per statement: its bytes.
    pub binary_data: Vec<Vec<ByteToken>>,
    /// The constants of the program, listed in the debug listing.
    pub defines: Vec<Define>,
}

/// The byte tokens held by a vector of rows.
pub open spec fn rows(v: Seq<Vec<ByteToken>>) -> Seq<Seq<ByteToken>> {
    v.map_values(|x: Vec<ByteToken>| x@)
}

/// Every label reference in `lines` names one of the first `n` labels.
pub open spec fn refs_below(lines: Seq<Seq<ByteToken>>, n: nat) -> bool {
    forall|i: int, k: int|
        0 <= i < lines.len() && 0 <= k < lines[i].len() ==> (#[trigger] lines[i][k] matches ByteToken::LabelRef(j) ==> j < n)
}

impl MachineCode {
    /// An empty program.
    pub fn new(_size: usize) -> (r: MachineCode)
        ensures
            r.debug_info@.len() == 0,
            r.binary_data@.len() == 0,
            r.defines@.len() == 0,
    {
        MachineCode { debug_info: Vec::new(), binary_data: Vec::new(), defines: Vec::new() }
    }

    /// Inserts an annotation at position `line`.
    pub fn insert_debug_info(&mut self, line: usize, info: Vec<char>)
        requires
            line <= old(self).debug_info@.len(),
        ensures
            views(final(self).debug_info@) == views(old(self).debug_info@).insert(
                line as int,
                info@,
            ),
            final(self).binary_data@ == old(self).binary_data@,
            final(self).defines@ == old(self).defines@,
    {
        let ghost i = info@;
        self.debug_info.insert(line, info);
        assert(views(self.debug_info@) =~= views(old(self).debug_info@).insert(line as int, i));
    }

    /// Appends a byte to statement `line`, or starts that statement when it
    /// is one past the last.
    pub fn insert_byte(&mut self, line: usize, byte: ByteToken)
        requires
            line <= old(self).binary_data@.len(),
        ensures
            line < old(self).binary_data@.len() ==> rows(final(self).binary_data@) == rows(
                old(self).binary_data@,
            ).update(line as int, old(self).binary_data@[line as int]@.push(byte)),
            line == old(self).binary_data@.len() ==> rows(final(self).binary_data@) == rows(
                old(self).binary_data@,
            ).push(seq![byte]),
            final(self).debug_info@ == old(self).debug_info@,
            final(self).defines@ == old(self).defines@,
    {
        if line < self.binary_data.len() {
            let mut l = self.binary_data.remove(line);
            l.push(byte);
            self.binary_data.insert(line, l);
            assert(rows(self.binary_data@) =~= rows(old(self).binary_data@).update(
                line as int,
                old(self).binary_data@[line as int]@.push(byte),
            ));
        } else {
            let l = vec![byte];
            assert(l@ =~= seq![byte]);
            self.binary_data.push(l);
            assert(rows(self.binary_data@) =~= rows(old(self).binary_data@).push(seq![byte]));
        }
    }
}

pub open spec fn pat_x() -> Seq<char> {
    seq![',', 'X']
}

pub open spec fn pat_y() -> Seq<char> {
    seq![',', 'Y']
}

pub open spec fn pat_close() -> Seq<char> {
    seq![')']
}

pub open spec fn pat_x_close() -> Seq<char> {
    seq![',', 'X', ')']
}

pub open spec fn pat_close_y() -> Seq<char> {
    seq![')', ',', 'Y']
}

/// The address part of an operand, without indexing, parentheses and `#`.
pub open spec fn bare_operand(o: Seq<char>) -> Seq<char> {
    strip_prefix(
        strip_prefix(
            strip_suffix(
                strip_suffix(strip_suffix(strip_suffix(o, pat_x()), pat_y()), pat_close()),
                pat_x(),
            ),
            '(',
        ),
        '#',
    )
}

/// The name of the constant that an address refers to, without its `<` or
/// `>` byte selector.
pub open spec fn define_key(addr: Seq<char>) -> Seq<char> {
    strip_prefix(strip_prefix(addr, '<'), '>')
}

/// The operand bytes that an address stands for: a reference for a label;
/// for a constant its value, or its low byte after `<`, its high byte after
/// `>`; otherwise the literal that the address writes.
pub open spec fn operand_bytes(
    addr: Seq<char>,
    labels: Seq<LabelView>,
    defines: Seq<DefineView>,
) -> Result<Seq<ByteToken>, AsmError> {
    match find_name(label_names(labels), addr) {
        Some(j) => Ok(seq![ByteToken::LabelRef(j as usize)]),
        None => match find_name(define_names(defines), define_key(addr)) {
            Some(k) => {
                let v = defines[k as int].value;
                if starts_with(addr, '<') {
                    Ok(seq![ByteToken::Byte(v.lower)])
                } else if starts_with(addr, '>') {
                    Ok(seq![ByteToken::Byte(v.upper)])
                } else {
                    match defines[k as int].size {
                        AddressSize::U8 => Ok(seq![ByteToken::Byte(v.lower)]),
                        AddressSize::U16 => Ok(
                            seq![ByteToken::Byte(v.lower), ByteToken::Byte(v.upper)],
                        ),
                        AddressSize::Unknown => Err(AsmError::AmbiguousOperandWidth),
                    }
                }
            },
            None => match size_of(addr) {
                AddressSize::U8 => match decode_u8(addr) {
                    Some(p) => Ok(seq![ByteToken::Byte(p.lower)]),
                    None => Err(AsmError::MalformedLiteral),
                },
                AddressSize::U16 => match decode_u16(addr) {
                    Some(p) => Ok(seq![ByteToken::Byte(p.lower), ByteToken::Byte(p.upper)]),
                    None => Err(AsmError::MalformedLiteral),
                },
                AddressSize::Unknown => Err(AsmError::AmbiguousOperandWidth),
            },
        },
    }
}

/// Whether an address is two bytes wide: a label after `JMP` or `JSR`, a
/// two-byte constant without selector, or a two-byte literal.
pub open spec fn operand_wide(
    op: nat,
    addr: Seq<char>,
    labels: Seq<LabelView>,
    defines: Seq<DefineView>,
) -> bool {
    match find_name(label_names(labels), addr) {
        Some(j) => op == JMP || op == JSR,
        None => match find_name(define_names(defines), define_key(addr)) {
            Some(k) => !starts_with(addr, '<') && !starts_with(addr, '>') && defines[k as int].size
                == AddressSize::U16,
            None => size_of(addr) == AddressSize::U16,
        },
    }
}

/// The addressing mode of an operand, and whether a zero high byte follows
/// a one-byte address that only an absolute mode can take.
pub open spec fn select_mode(op: nat, o: Seq<char>, wide: bool) -> Option<(nat, bool)> {
    if starts_with(o, '#') {
        Some((IMMEDIATE as nat, false))
    } else if starts_with(o, '(') {
        if ends_with(o, pat_x_close()) {
            Some((INDEXED_INDIRECT as nat, false))
        } else if ends_with(o, pat_close_y()) {
            Some((INDIRECT_INDEXED as nat, false))
        } else if ends_with(o, pat_close()) {
            Some((INDIRECT as nat, false))
        } else {
            None
        }
    } else if ends_with(o, pat_x()) {
        Some((if wide { ABSOLUTE_X as nat } else { ZEROPAGE_X as nat }, false))
    } else if ends_with(o, pat_y()) {
        Some((if wide { ABSOLUTE_Y as nat } else { ZEROPAGE_Y as nat }, false))
    } else if !wide {
        if opcode_of(op, RELATIVE as nat) is Some {
            Some((RELATIVE as nat, false))
        } else if opcode_of(op, ZEROPAGE as nat) is Some {
            Some((ZEROPAGE as nat, false))
        } else if opcode_of(op, ABSOLUTE as nat) is Some {
            Some((ABSOLUTE as nat, true))
        } else {
            None
        }
    } else {
        Some((ABSOLUTE as nat, false))
    }
}

/// A lone opcode byte, if the mode exists.
pub open spec fn lone_opcode(b: Option<u8>) -> Result<(Seq<ByteToken>, nat), AsmError> {
    match b {
        Some(b) => Ok((seq![ByteToken::Byte(b)], 1)),
        None => Err(AsmError::UnknownAddressingPattern),
    }
}

pub open spec fn accumulator_word() -> Seq<char> {
    seq!['A']
}

/// The bytes of one instruction, and by how much it moves the program
/// counter.
pub open spec fn encode_instruction(
    w: Seq<Seq<char>>,
    labels: Seq<LabelView>,
    defines: Seq<DefineView>,
) -> Result<(Seq<ByteToken>, nat), AsmError> {
    if w.len() == 0 {
        Err(AsmError::UnknownOpcode)
    } else {
        match mnemonic_index(w[0]) {
            None => Err(AsmError::UnknownOpcode),
            Some(op) => if w.len() == 1 {
                lone_opcode(opcode_of(op, IMPLIED as nat))
            } else if w.len() > 2 {
                Err(AsmError::UnknownAddressingPattern)
            } else if w[1] == accumulator_word() {
                lone_opcode(opcode_of(op, ACCUMULATOR as nat))
            } else {
                let addr = bare_operand(w[1]);
                let wide = operand_wide(op, addr, labels, defines);
                match operand_bytes(addr, labels, defines) {
                    Err(e) => Err(e),
                    Ok(bytes) => match select_mode(op, w[1], wide) {
                        None => Err(AsmError::UnknownAddressingPattern),
                        Some((mode, pad)) => match opcode_of(op, mode) {
                            None => Err(AsmError::UnknownAddressingPattern),
                            Some(b) => Ok(
                                (
                                    seq![ByteToken::Byte(b)] + bytes + if pad {
                                        seq![ByteToken::Byte(0)]
                                    } else {
                                        Seq::empty()
                                    },
                                    1 + (if wide {
                                        2nat
                                    } else {
                                        1nat
                                    }) + (if pad {
                                        1nat
                                    } else {
                                        0nat
                                    }),
                                ),
                            ),
                        },
                    },
                }
            },
        }
    }
}

fn chars2(a: char, b: char) -> (r: Vec<char>)
    ensures
        r@ == seq![a, b],
{
    let r = vec![a, b];
    assert(r@ =~= seq![a, b]);
    r
}

fn chars3(a: char, b: char, c: char) -> (r: Vec<char>)
    ensures
        r@ == seq![a, b, c],
{
    let r = vec![a, b, c];
    assert(r@ =~= seq![a, b, c]);
    r
}

fn chars1(a: char) -> (r: Vec<char>)
    ensures
        r@ == seq![a],
{
    let r = vec![a];
    assert(r@ =~= seq![a]);
    r
}

/// The address part of an operand.
fn strip_operand(o: &[char]) -> (r: Vec<char>)
    ensures
        r@ == bare_operand(o@),
{
    let px = chars2(',', 'X');
    let py = chars2(',', 'Y');
    let pc = chars1(')');
    let a = strip_suffix_chars(o, px.as_slice());
    let b = strip_suffix_chars(a.as_slice(), py.as_slice());
    let c = strip_suffix_chars(b.as_slice(), pc.as_slice());
    let d = strip_suffix_chars(c.as_slice(), px.as_slice());
    let e = strip_prefix_chars(d.as_slice(), '(');
    strip_prefix_chars(e.as_slice(), '#')
}

fn starts_with_char(s: &[char], c: char) -> (r: bool)
    ensures
        r == starts_with(s@, c),
{
    s.len() > 0 && s[0] == c
}

/// The operand bytes that an address stands for.
pub fn address_to_string(num: &[char], labels: &Vec<Label>, defines: &Vec<Define>) -> (r: Result<
    Vec<ByteToken>,
    AsmError,
>)
    ensures
        match (operand_bytes(num@, label_views(labels@), define_views(defines@)), r) {
            (Ok(v), Ok(b)) => b@ == v,
            (Err(e), Err(f)) => e == f,
            _ => false,
        },
{
    match find_label(labels, num) {
        Some(j) => {
            let r = vec![ByteToken::LabelRef(j)];
            assert(r@ =~= seq![ByteToken::LabelRef(j)]);
            return Ok(r);
        },
        None => {},
    }
    let a = strip_prefix_chars(num, '<');
    let key = strip_prefix_chars(a.as_slice(), '>');
    match find_define(defines, key.as_slice()) {
        Some(k) => {
            let v = defines[k].value;
            assert(define_views(defines@)[k as int] == defines@[k as int]@);
            let r = if starts_with_char(num, '<') {
                vec![ByteToken::Byte(v.lower)]
            } else if starts_with_char(num, '>') {
                vec![ByteToken::Byte(v.upper)]
            } else {
                match defines[k].size {
                    AddressSize::U8 => vec![ByteToken::Byte(v.lower)],
                    AddressSize::U16 => vec![ByteToken::Byte(v.lower), ByteToken::Byte(v.upper)],
                    AddressSize::Unknown => {
                        return Err(AsmError::AmbiguousOperandWidth);
                    },
                }
            };
            assert(r@ =~= operand_bytes(num@, label_views(labels@), define_views(defines@))->Ok_0);
            Ok(r)
        },
        None => match address_size(num) {
            AddressSize::U8 => match u8_decode(num) {
                Some(p) => {
                    let r = vec![ByteToken::Byte(p.lower)];
                    assert(r@ =~= seq![ByteToken::Byte(p.lower)]);
                    Ok(r)
                },
                None => Err(AsmError::MalformedLiteral),
            },
            AddressSize::U16 => match u16_decode(num) {
                Some(p) => {
                    let r = vec![ByteToken::Byte(p.lower), ByteToken::Byte(p.upper)];
                    assert(r@ =~= seq![ByteToken::Byte(p.lower), ByteToken::Byte(p.upper)]);
                    Ok(r)
                },
                None => Err(AsmError::MalformedLiteral),
            },
            AddressSize::Unknown => Err(AsmError::AmbiguousOperandWidth),
        },
    }
}

/// Whether an address is two bytes wide after mnemonic `op`.
fn operand_width(op: usize, num: &[char], labels: &Vec<Label>, defines: &Vec<Define>) -> (r: bool)
    ensures
        r == operand_wide(op as nat, num@, label_views(labels@), define_views(defines@)),
{
    match find_label(labels, num) {
        Some(_) => {
            return op == JMP || op == JSR;
        },
        None => {},
    }
    let a = strip_prefix_chars(num, '<');
    let key = strip_prefix_chars(a.as_slice(), '>');
    match find_define(defines, key.as_slice()) {
        Some(k) => {
            assert(define_views(defines@)[k as int] == defines@[k as int]@);
            !starts_with_char(num, '<') && !starts_with_char(num, '>') && match defines[k].size {
                AddressSize::U16 => true,
                _ => false,
            }
        },
        None => match address_size(num) {
            AddressSize::U16 => true,
            _ => false,
        },
    }
}

fn has_opcode(op: usize, mode: usize) -> (r: bool)
    ensures
        r == (opcode_of(op as nat, mode as nat) is Some),
{
    match format_opcode(op, mode) {
        Some(_) => true,
        None => false,
    }
}

/// The addressing mode of an operand after mnemonic `op`.
fn choose_mode(op: usize, o: &[char], wide: bool) -> (r: Option<(usize, bool)>)
    ensures
        match (select_mode(op as nat, o@, wide), r) {
            (Some(m), Some(x)) => m.0 == x.0 as nat && m.1 == x.1,
            (None, None) => true,
            _ => false,
        },
{
    if starts_with_char(o, '#') {
        Some((IMMEDIATE, false))
    } else if starts_with_char(o, '(') {
        if ends_with_chars(o, chars3(',', 'X', ')').as_slice()) {
            Some((INDEXED_INDIRECT, false))
        } else if ends_with_chars(o, chars3(')', ',', 'Y').as_slice()) {
            Some((INDIRECT_INDEXED, false))
        } else if ends_with_chars(o, chars1(')').as_slice()) {
            Some((INDIRECT, false))
        } else {
            None
        }
    } else if ends_with_chars(o, chars2(',', 'X').as_slice()) {
        Some((
            if wide {
                ABSOLUTE_X
            } else {
                ZEROPAGE_X
            },
            false,
        ))
    } else if ends_with_chars(o, chars2(',', 'Y').as_slice()) {
        Some((
            if wide {
                ABSOLUTE_Y
            } else {
                ZEROPAGE_Y
            },
            false,
        ))
    } else if !wide {
        if has_opcode(op, RELATIVE) {
            Some((RELATIVE, false))
        } else if has_opcode(op, ZEROPAGE) {
            Some((ZEROPAGE, false))
        } else if has_opcode(op, ABSOLUTE) {
            Some((ABSOLUTE, true))
        } else {
            None
        }
    } else {
        Some((ABSOLUTE, false))
    }
}

/// The sixteen hexadecimal digits, upper case.
pub open spec fn hex_chars() -> Seq<char> {
    seq!['0', '1', '2', '3', '4', '5', '6', '7', '8', '9', 'A', 'B', 'C', 'D', 'E', 'F']
}

/// An address as four hexadecimal digits.
pub open spec fn hex4(n: u16) -> Seq<char> {
    let v = n as int;
    seq![
        hex_chars()[v / 4096],
        hex_chars()[(v / 256) % 16],
        hex_chars()[(v / 16) % 16],
        hex_chars()[v % 16],
    ]
}

/// The hexadecimal digit of a value below sixteen.
pub fn hex_digit(v: u16) -> (r: char)
    requires
        v < 16,
    ensures
        r == hex_chars()[v as int],
{
    let t: [char; 16] = ['0', '1', '2', '3', '4', '5', '6', '7', '8', '9', 'A', 'B', 'C', 'D', 'E', 'F'];
    assert(t@ =~= hex_chars());
    t[v as usize]
}

/// The name of the label that marks statement `i`; the last such label in
/// table order wins, and none gives the empty name.
pub open spec fn label_at(ls: Seq<LabelView>, i: nat) -> Seq<char>
    decreases ls.len(),
{
    if ls.len() == 0 {
        Seq::empty()
    } else if ls.last().line == i {
        ls.last().name
    } else {
        label_at(ls.drop_last(), i)
    }
}

/// The debug annotation of an instruction: its address, label, mnemonic and
/// operand, in columns.
pub open spec fn annotation(pc: u16, sym: Seq<char>, w: Seq<Seq<char>>) -> Seq<char> {
    hex4(pc) + seq![' '] + pad_right(sym, 6) + seq![' '] + pad_right(w[0], 3) + seq![' ']
        + pad_right(
        if w.len() > 1 {
            w[1]
        } else {
            Seq::empty()
        },
        12,
    ) + seq![' ']
}

/// The state of the second pass between two statements.
pub struct EncState {
    pub pc: u16,
    pub lines: Seq<Seq<ByteToken>>,
    pub debug: Seq<Seq<char>>,
}

/// The second pass over statement `i`.
#[verifier::opaque]
pub open spec fn encode_line(
    st: EncState,
    t: TokenLineView,
    i: nat,
    labels: Seq<LabelView>,
    defines: Seq<DefineView>,
) -> Result<EncState, AsmError> {
    match t {
        TokenLineView::Origin(a) => Ok(
            EncState {
                pc: a,
                lines: st.lines.push(seq![ByteToken::Origin(a)]),
                debug: st.debug.push(Seq::empty()),
            },
        ),
        TokenLineView::Instruction(w) => match encode_instruction(w, labels, defines) {
            Err(e) => Err(e),
            Ok((bytes, adv)) => Ok(
                EncState {
                    pc: ((st.pc + adv) % 65536) as u16,
                    lines: st.lines.push(bytes),
                    debug: st.debug.push(annotation(st.pc, label_at(labels, i), w)),
                },
            ),
        },
    }
}

/// The second pass over the first `k` statements.
pub open spec fn encode_prefix(
    tokens: Seq<TokenLineView>,
    labels: Seq<LabelView>,
    defines: Seq<DefineView>,
    k: nat,
) -> Result<EncState, AsmError>
    decreases k,
{
    if k == 0 || k > tokens.len() {
        Ok(EncState { pc: 0, lines: Seq::empty(), debug: Seq::empty() })
    } else {
        match encode_prefix(tokens, labels, defines, (k - 1) as nat) {
            Err(e) => Err(e),
            Ok(st) => encode_line(st, tokens[k - 1], (k - 1) as nat, labels, defines),
        }
    }
}

/// The program counter when the second pass reaches statement `line`.
pub open spec fn pc_at(
    tokens: Seq<TokenLineView>,
    labels: Seq<LabelView>,
    defines: Seq<DefineView>,
    line: nat,
) -> u16 {
    match encode_prefix(tokens, labels, defines, line) {
        Ok(st) => st.pc,
        Err(_) => 0,
    }
}

/// The label table with each label's address fixed to the program counter
/// at its statement.
pub open spec fn resolved_labels(
    tokens: Seq<TokenLineView>,
    labels: Seq<LabelView>,
    defines: Seq<DefineView>,
) -> Seq<LabelView> {
    labels.map_values(
        |l: LabelView|
            LabelView {
                name: l.name,
                line: l.line,
                address: if l.line < tokens.len() {
                    pc_at(tokens, labels, defines, l.line)
                } else {
                    l.address
                },
            },
    )
}

/// The second pass: the encoded statements and the resolved label table.
pub open spec fn encode(
    tokens: Seq<TokenLineView>,
    labels: Seq<LabelView>,
    defines: Seq<DefineView>,
) -> Result<(EncState, Seq<LabelView>), AsmError> {
    match encode_prefix(tokens, labels, defines, tokens.len()) {
        Ok(st) => Ok((st, resolved_labels(tokens, labels, defines))),
        Err(e) => Err(e),
    }
}

pub proof fn lemma_encode_err(
    tokens: Seq<TokenLineView>,
    labels: Seq<LabelView>,
    defines: Seq<DefineView>,
    k: nat,
    n: nat,
)
    requires
        k <= n <= tokens.len(),
        encode_prefix(tokens, labels, defines, k) is Err,
    ensures
        encode_prefix(tokens, labels, defines, n) == encode_prefix(tokens, labels, defines, k),
    decreases n,
{
    if n > k {
        lemma_encode_err(tokens, labels, defines, k, (n - 1) as nat);
    }
}

/// The bytes of one instruction, and by how much it moves the program
/// counter.
fn encode_statement(w: &Vec<Vec<char>>, labels: &Vec<Label>, defines: &Vec<Define>) -> (r: Result<
    (Vec<ByteToken>, u16),
    AsmError,
>)
    ensures
        match (encode_instruction(views(w@), label_views(labels@), define_views(defines@)), r) {
            (Ok(v), Ok(x)) => x.0@ == v.0 && x.1 as nat == v.1,
            (Err(e), Err(f)) => e == f,
            _ => false,
        },
{
    let ghost ws = views(w@);
    if w.len() == 0 {
        return Err(AsmError::UnknownOpcode);
    }
    assert(ws[0] == w@[0]@);
    let op = match find_mnemonic(w[0].as_slice()) {
        Some(op) => op,
        None => {
            return Err(AsmError::UnknownOpcode);
        },
    };
    if w.len() == 1 {
        return match format_opcode(op, IMPLIED) {
            Some(b) => {
                let r = vec![ByteToken::Byte(b)];
                assert(r@ =~= seq![ByteToken::Byte(b)]);
                Ok((r, 1))
            },
            None => Err(AsmError::UnknownAddressingPattern),
        };
    }
    if w.len() > 2 {
        return Err(AsmError::UnknownAddressingPattern);
    }
    assert(ws[1] == w@[1]@);
    let o = w[1].as_slice();
    if same_chars(o, chars1('A').as_slice()) {
        return match format_opcode(op, ACCUMULATOR) {
            Some(b) => {
                let r = vec![ByteToken::Byte(b)];
                assert(r@ =~= seq![ByteToken::Byte(b)]);
                Ok((r, 1))
            },
            None => Err(AsmError::UnknownAddressingPattern),
        };
    }
    let addr = strip_operand(o);
    let wide = operand_width(op, addr.as_slice(), labels, defines);
    let bytes = match address_to_string(addr.as_slice(), labels, defines) {
        Ok(b) => b,
        Err(e) => {
            return Err(e);
        },
    };
    let (mode, pad) = match choose_mode(op, o, wide) {
        Some(m) => m,
        None => {
            return Err(AsmError::UnknownAddressingPattern);
        },
    };
    let b = match format_opcode(op, mode) {
        Some(b) => b,
        None => {
            return Err(AsmError::UnknownAddressingPattern);
        },
    };
    let mut out = vec![ByteToken::Byte(b)];
    let mut k: usize = 0;
    assert(out@ =~= seq![ByteToken::Byte(b)] + bytes@.subrange(0, 0));
    while k < bytes.len()
        invariant
            k <= bytes@.len(),
            out@ == seq![ByteToken::Byte(b)] + bytes@.subrange(0, k as int),
        decreases bytes@.len() - k,
    {
        out.push(bytes[k]);
        k = k + 1;
        assert(out@ =~= seq![ByteToken::Byte(b)] + bytes@.subrange(0, k as int));
    }
    assert(bytes@.subrange(0, k as int) =~= bytes@);
    if pad {
        out.push(ByteToken::Byte(0));
        assert(out@ =~= seq![ByteToken::Byte(b)] + bytes@ + seq![ByteToken::Byte(0)]);
    } else {
        assert(out@ =~= seq![ByteToken::Byte(b)] + bytes@ + Seq::<ByteToken>::empty());
    }
    let adv: u16 = 1 + (if wide {
        2
    } else {
        1
    }) + (if pad {
        1
    } else {
        0
    });
    Ok((out, adv))
}

/// Builds the debug annotation of an instruction.
fn annotate(pc: u16, sym: &[char], w: &Vec<Vec<char>>) -> (r: Vec<char>)
    requires
        w@.len() >= 1,
    ensures
        r@ == annotation(pc, sym@, views(w@)),
{
    let ghost ws = views(w@);
    assert(ws[0] == w@[0]@);
    let mut out: Vec<char> = Vec::new();
    out.push(hex_digit(pc / 4096));
    out.push(hex_digit((pc / 256) % 16));
    out.push(hex_digit((pc / 16) % 16));
    out.push(hex_digit(pc % 16));
    assert(out@ =~= hex4(pc));
    out.push(' ');
    push_padded(&mut out, sym, 6);
    out.push(' ');
    push_padded(&mut out, w[0].as_slice(), 3);
    out.push(' ');
    if w.len() > 1 {
        assert(ws[1] == w@[1]@);
        push_padded(&mut out, w[1].as_slice(), 12);
    } else {
        let empty: Vec<char> = Vec::new();
        push_padded(&mut out, empty.as_slice(), 12);
    }
    out.push(' ');
    assert(out@ =~= annotation(pc, sym@, ws));
    out
}

fn copy_chars(s: &Vec<char>) -> (r: Vec<char>)
    ensures
        r@ == s@,
{
    let r = crate::text::copy_range(s.as_slice(), 0, s.len());
    assert(s@.subrange(0, s@.len() as int) =~= s@);
    r
}

/// The second pass over one statement.
fn encode_step(
    mc: &mut MachineCode,
    pc: &mut u16,
    t: &TokenLine,
    i: usize,
    sym: &[char],
    labels: &Vec<Label>,
    defines: &Vec<Define>,
) -> (r: Result<(), AsmError>)
    requires
        sym@ == label_at(label_views(labels@), i as nat),
        old(mc).binary_data@.len() == i,
        old(mc).debug_info@.len() == i,
    ensures
        match encode_line(
            EncState {
                pc: *old(pc),
                lines: rows(old(mc).binary_data@),
                debug: views(old(mc).debug_info@),
            },
            t@,
            i as nat,
            label_views(labels@),
            define_views(defines@),
        ) {
            Ok(st) => r is Ok && st == EncState {
                pc: *final(pc),
                lines: rows(final(mc).binary_data@),
                debug: views(final(mc).debug_info@),
            },
            Err(e) => r == Err::<(), AsmError>(e),
        },
        r is Ok ==> final(mc).binary_data@.len() == i + 1 && final(mc).debug_info@.len() == i + 1,
        final(mc).defines@ == old(mc).defines@,
{
    reveal(encode_line);
    match t {
        TokenLine::Origin(a) => {
            let row = vec![ByteToken::Origin(*a)];
            assert(row@ =~= seq![ByteToken::Origin(*a)]);
            mc.binary_data.push(row);
            mc.insert_debug_info(i, Vec::new());
            assert(rows(mc.binary_data@) =~= rows(old(mc).binary_data@).push(
                seq![ByteToken::Origin(*a)],
            ));
            assert(views(mc.debug_info@) =~= views(old(mc).debug_info@).push(Seq::empty()));
            *pc = *a;
            Ok(())
        },
        TokenLine::Instruction(w) => {
            match encode_statement(w, labels, defines) {
                Err(e) => Err(e),
                Ok((bytes, adv)) => {
                    let info = annotate(*pc, sym, w);
                    let ghost iv = info@;
                    mc.insert_debug_info(i, info);
                    let ghost bv = bytes@;
                    mc.binary_data.push(bytes);
                    assert(rows(mc.binary_data@) =~= rows(old(mc).binary_data@).push(bv));
                    assert(views(mc.debug_info@) =~= views(old(mc).debug_info@).push(iv));
                    *pc = ((*pc as u32 + adv as u32) % 65536) as u16;
                    Ok(())
                },
            }
        },
    }
}

/// The index that [`find_name`] gives lies inside the list.
pub proof fn lemma_find_name_bound(names: Seq<Seq<char>>, name: Seq<char>)
    ensures
        find_name(names, name) matches Some(i) ==> i < names.len(),
    decreases names.len(),
{
    if names.len() > 0 {
        lemma_find_name_bound(names.drop_last(), name);
    }
}

/// The bytes of an instruction refer only to labels of the table.
pub proof fn lemma_instruction_refs(
    w: Seq<Seq<char>>,
    labels: Seq<LabelView>,
    defines: Seq<DefineView>,
)
    ensures
        encode_instruction(w, labels, defines) matches Ok((bytes, _)) ==> forall|k: int|
            0 <= k < bytes.len() ==> (#[trigger] bytes[k] matches ByteToken::LabelRef(j) ==> j
                < labels.len()),
{
    if w.len() == 2 && mnemonic_index(w[0]) is Some && w[1] != accumulator_word() {
        let addr = bare_operand(w[1]);
        lemma_find_name_bound(label_names(labels), addr);
        if let Ok((bytes, _)) = encode_instruction(w, labels, defines) {
            let ob = operand_bytes(addr, labels, defines)->Ok_0;
            let op = mnemonic_index(w[0])->0;
            let (mode, pad) = select_mode(op, w[1], operand_wide(op, addr, labels, defines))->0;
            let b = opcode_of(op, mode)->0;
            assert(bytes == seq![ByteToken::Byte(b)] + ob + if pad {
                seq![ByteToken::Byte(0)]
            } else {
                Seq::empty()
            });
            assert forall|k: int| 0 <= k < bytes.len() implies (#[trigger] bytes[k] matches ByteToken::LabelRef(j) ==> j
                < labels.len()) by {
                if 1 <= k < 1 + ob.len() {
                    assert(bytes[k] == ob[k - 1]);
                }
            }
        }
    }
}

/// Every statement that the second pass encodes refers only to labels of
/// the table.
pub proof fn lemma_encode_refs(
    tokens: Seq<TokenLineView>,
    labels: Seq<LabelView>,
    defines: Seq<DefineView>,
    k: nat,
)
    ensures
        encode_prefix(tokens, labels, defines, k) matches Ok(st) ==> refs_below(
            st.lines,
            labels.len(),
        ),
    decreases k,
{
    reveal(encode_line);
    if k > 0 && k <= tokens.len() {
        lemma_encode_refs(tokens, labels, defines, (k - 1) as nat);
        if let Ok(prev) = encode_prefix(tokens, labels, defines, (k - 1) as nat) {
            if let TokenLineView::Instruction(w) = tokens[k - 1] {
                lemma_instruction_refs(w, labels, defines);
            }
            if let Ok(st) = encode_prefix(tokens, labels, defines, k) {
                assert forall|i: int, m: int|
                    0 <= i < st.lines.len() && 0 <= m < st.lines[i].len() implies (
                    #[trigger] st.lines[i][m] matches ByteToken::LabelRef(j) ==> j
                        < labels.len()) by {
                    if i < prev.lines.len() {
                        assert(st.lines[i] == prev.lines[i]);
                    }
                }
            }
        }
    }
}

/// Fixes to `pc` the address of every label of statement `i`, and returns
/// the name of the last of them.
fn bind_labels(addrs: &mut Vec<u16>, labels: &Vec<Label>, i: usize, pc: u16) -> (r: Vec<char>)
    requires
        old(addrs)@.len() == labels@.len(),
    ensures
        final(addrs)@.len() == labels@.len(),
        forall|j: int|
            0 <= j < labels@.len() ==> #[trigger] final(addrs)@[j] == if labels@[j].line == i {
                pc
            } else {
                old(addrs)@[j]
            },
        r@ == label_at(label_views(labels@), i as nat),
{
    let ghost ls = label_views(labels@);
    let mut sym: Vec<char> = Vec::new();
    let mut j: usize = 0;
    assert(ls.subrange(0, 0) =~= Seq::<LabelView>::empty());
    while j < labels.len()
        invariant
            j <= labels@.len(),
            ls == label_views(labels@),
            addrs@.len() == labels@.len(),
            forall|k: int|
                0 <= k < labels@.len() ==> #[trigger] addrs@[k] == if k < j && labels@[k].line
                    == i {
                    pc
                } else {
                    old(addrs)@[k]
                },
            sym@ == label_at(ls.subrange(0, j as int), i as nat),
        decreases labels@.len() - j,
    {
        let ghost next = ls.subrange(0, j + 1);
        assert(next.drop_last() =~= ls.subrange(0, j as int));
        assert(next.last() == labels@[j as int]@);
        if labels[j].line == i {
            addrs.set(j, pc);
            sym = copy_chars(&labels[j].name);
        }
        j = j + 1;
    }
    assert(ls.subrange(0, j as int) =~= ls);
    sym
}

/// Encodes the statements in order while the program counter runs from zero
/// (or from the address of the last location directive), and fixes each
/// label's address to the counter at its statement.
///
/// An instruction without operand takes the implied mode, with operand `A`
/// the accumulator mode; otherwise the operand's form and width select the
/// mode. Fails with `UnknownOpcode` on a statement without known mnemonic,
/// with `UnknownAddressingPattern` when the instruction lacks the selected
/// mode, and with the operand's own error when it cannot be read.
pub fn tokens_to_machine_code(
    tokens: &Vec<TokenLine>,
    labels: &Vec<Label>,
    defines: &Vec<Define>,
) -> (r: Result<(MachineCode, Vec<Label>), AsmError>)
    ensures
        match (encode(line_views(tokens@), label_views(labels@), define_views(defines@)), r) {
            (Ok(v), Ok(x)) => rows(x.0.binary_data@) == v.0.lines && views(x.0.debug_info@)
                == v.0.debug && x.0.defines@.len() == 0 && label_views(x.1@) == v.1,
            (Err(e), Err(f)) => e == f,
            _ => false,
        },
{
    let ghost ts = line_views(tokens@);
    let ghost ls = label_views(labels@);
    let ghost ds = define_views(defines@);
    let mut mc = MachineCode::new(0);
    let mut pc: u16 = 0;
    let mut addrs: Vec<u16> = Vec::new();
    let mut j: usize = 0;
    while j < labels.len()
        invariant
            j <= labels@.len(),
            addrs@.len() == j,
            forall|k: int| 0 <= k < j ==> #[trigger] addrs@[k] == labels@[k].address,
        decreases labels@.len() - j,
    {
        addrs.push(labels[j].address);
        j = j + 1;
    }
    assert(rows(mc.binary_data@) =~= Seq::<Seq<ByteToken>>::empty());
    assert(views(mc.debug_info@) =~= Seq::<Seq<char>>::empty());
    let mut i: usize = 0;
    while i < tokens.len()
        invariant
            i <= tokens@.len(),
            ts == line_views(tokens@),
            ls == label_views(labels@),
            ds == define_views(defines@),
            mc.defines@.len() == 0,
            encode_prefix(ts, ls, ds, i as nat) == Ok::<EncState, AsmError>(
                EncState { pc, lines: rows(mc.binary_data@), debug: views(mc.debug_info@) },
            ),
            rows(mc.binary_data@).len() == i,
            views(mc.debug_info@).len() == i,
            addrs@.len() == labels@.len(),
            forall|k: int|
                0 <= k < labels@.len() ==> #[trigger] addrs@[k] == if labels@[k].line < i {
                    pc_at(ts, ls, ds, labels@[k].line as nat)
                } else {
                    labels@[k].address
                },
        decreases tokens@.len() - i,
    {
        let sym = bind_labels(&mut addrs, labels, i, pc);
        assert(pc == pc_at(ts, ls, ds, i as nat));
        assert(ts[i as int] == tokens@[i as int]@);
        match encode_step(&mut mc, &mut pc, &tokens[i], i, sym.as_slice(), labels, defines) {
            Ok(()) => {},
            Err(e) => {
                proof {
                    lemma_encode_err(ts, ls, ds, (i + 1) as nat, ts.len());
                }
                return Err(e);
            },
        }
        i = i + 1;
        assert forall|k: int| 0 <= k < labels@.len() implies #[trigger] addrs@[k] == if labels@[k].line
            < i {
            pc_at(ts, ls, ds, labels@[k].line as nat)
        } else {
            labels@[k].address
        } by {
            if labels@[k].line == i - 1 {
            }
        }
    }
    let mut out: Vec<Label> = Vec::new();
    let mut j: usize = 0;
    let ghost res = resolved_labels(ts, ls, ds);
    assert(label_views(out@) =~= res.subrange(0, 0));
    while j < labels.len()
        invariant
            j <= labels@.len(),
            i == tokens@.len(),
            ts.len() == i,
            res.len() == labels@.len(),
            addrs@.len() == labels@.len(),
            res == resolved_labels(ts, ls, ds),
            ls == label_views(labels@),
            ts == line_views(tokens@),
            forall|k: int|
                0 <= k < labels@.len() ==> #[trigger] addrs@[k] == if labels@[k].line < i {
                    pc_at(ts, ls, ds, labels@[k].line as nat)
                } else {
                    labels@[k].address
                },
            label_views(out@) == res.subrange(0, j as int),
            out@.len() == j,
        decreases labels@.len() - j,
    {
        let l = Label { name: copy_chars(&labels[j].name), line: labels[j].line, address: addrs[j] };
        assert(l@ == res[j as int]);
        let ghost prev = out@;
        out.push(l);
        proof {
            assert forall|k: int| 0 <= k <= j implies #[trigger] label_views(out@)[k] == res[k] by {
                if k < j {
                    assert(out@[k] == prev[k]);
                    assert(label_views(prev)[k] == res.subrange(0, j as int)[k]);
                }
            }
        }
        j = j + 1;
        assert(label_views(out@) =~= res.subrange(0, j as int));
    }
    assert(res.subrange(0, j as int) =~= res);
    Ok((mc, out))
}

} // verus!
