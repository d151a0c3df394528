//! The instruction set: the 56 mnemonics and, for each, the opcode byte of
//! every addressing mode it has.

use vstd::prelude::*;

verus! {

/// Implied: no operand.
pub const IMPLIED: usize = 0;
/// The accumulator as operand.
pub const ACCUMULATOR: usize = 1;
/// `#value`.
pub const IMMEDIATE: usize = 2;
/// A two-byte address.
pub const ABSOLUTE: usize = 3;
/// A two-byte address indexed by X.
pub const ABSOLUTE_X: usize = 4;
/// A two-byte address indexed by Y.
pub const ABSOLUTE_Y: usize = 5;
/// A one-byte address.
pub const ZEROPAGE: usize = 6;
/// A one-byte address indexed by X.
pub const ZEROPAGE_X: usize = 7;
/// A one-byte address indexed by Y.
pub const ZEROPAGE_Y: usize = 8;
/// `(address)`.
pub const INDIRECT: usize = 9;
/// `(address,X)`.
pub const INDEXED_INDIRECT: usize = 10;
/// `(address),Y`.
pub const INDIRECT_INDEXED: usize = 11;
/// A signed one-byte branch displacement.
pub const RELATIVE: usize = 12;

/// The number of addressing modes.
pub const MODES: usize = 13;

/// The index of `JMP` among the mnemonics.
pub const JMP: usize = 27;
/// The index of `JSR` among the mnemonics.
pub const JSR: usize = 28;

/// The position of a mnemonic in the alphabetical list of the 56, if it is one.
pub open spec fn mnemonic_index(s: Seq<char>) -> Option<nat> {
    if s.len() != 3 {
        None
    } else {
        match (s[0], s[1], s[2]) {
            ('A', 'D', 'C') => Some(0nat),
            ('A', 'N', 'D') => Some(1nat),
            ('A', 'S', 'L') => Some(2nat),
            ('B', 'C', 'C') => Some(3nat),
            ('B', 'C', 'S') => Some(4nat),
            ('B', 'E', 'Q') => Some(5nat),
            ('B', 'I', 'T') => Some(6nat),
            ('B', 'M', 'I') => Some(7nat),
            ('B', 'N', 'E') => Some(8nat),
            ('B', 'P', 'L') => Some(9nat),
            ('B', 'R', 'K') => Some(10nat),
            ('B', 'V', 'C') => Some(11nat),
            ('B', 'V', 'S') => Some(12nat),
            ('C', 'L', 'C') => Some(13nat),
            ('C', 'L', 'D') => Some(14nat),
            ('C', 'L', 'I') => Some(15nat),
            ('C', 'L', 'V') => Some(16nat),
            ('C', 'M', 'P') => Some(17nat),
            ('C', 'P', 'X') => Some(18nat),
            ('C', 'P', 'Y') => Some(19nat),
            ('D', 'E', 'C') => Some(20nat),
            ('D', 'E', 'X') => Some(21nat),
            ('D', 'E', 'Y') => Some(22nat),
            ('E', 'O', 'R') => Some(23nat),
            ('I', 'N', 'C') => Some(24nat),
            ('I', 'N', 'X') => Some(25nat),
            ('I', 'N', 'Y') => Some(26nat),
            ('J', 'M', 'P') => Some(27nat),
            ('J', 'S', 'R') => Some(28nat),
            ('L', 'D', 'A') => Some(29nat),
            ('L', 'D', 'X') => Some(30nat),
            ('L', 'D', 'Y') => Some(31nat),
            ('L', 'S', 'R') => Some(32nat),
            ('N', 'O', 'P') => Some(33nat),
            ('O', 'R', 'A') => Some(34nat),
            ('P', 'H', 'A') => Some(35nat),
            ('P', 'H', 'P') => Some(36nat),
            ('P', 'L', 'A') => Some(37nat),
            ('P', 'L', 'P') => Some(38nat),
            ('R', 'O', 'L') => Some(39nat),
            ('R', 'O', 'R') => Some(40nat),
            ('R', 'T', 'I') => Some(41nat),
            ('R', 'T', 'S') => Some(42nat),
            ('S', 'B', 'C') => Some(43nat),
            ('S', 'E', 'C') => Some(44nat),
            ('S', 'E', 'D') => Some(45nat),
            ('S', 'E', 'I') => Some(46nat),
            ('S', 'T', 'A') => Some(47nat),
            ('S', 'T', 'X') => Some(48nat),
            ('S', 'T', 'Y') => Some(49nat),
            ('T', 'A', 'X') => Some(50nat),
            ('T', 'A', 'Y') => Some(51nat),
            ('T', 'S', 'X') => Some(52nat),
            ('T', 'X', 'A') => Some(53nat),
            ('T', 'X', 'S') => Some(54nat),
            ('T', 'Y', 'A') => Some(55nat),
            _ => None,
        }
    }
}

/// Picks entry `mode` of a row of the table; a negative entry marks a mode
/// that the instruction lacks.
pub open spec fn pick(mode: nat, row: Seq<int>) -> Option<u8> {
    if mode < row.len() && 0 <= row[mode as int] <= 255 {
        Some(row[mode as int] as u8)
    } else {
        None
    }
}

/// Row `op` of the opcode table, one entry per addressing mode.
pub open spec fn table_row(op: nat) -> Seq<int> {
    if op == 0 {
        seq![-1, -1, 0x69, 0x6d, 0x7d, 0x79, 0x65, 0x75, -1, -1, 0x61, 0x71, -1]
    } else if op == 1 {
        seq![-1, -1, 0x29, 0x2d, 0x3d, 0x39, 0x25, 0x35, -1, -1, 0x21, 0x31, -1]
    } else if op == 2 {
        seq![-1, 0x0a, -1, 0x0e, 0x1e, -1, 0x06, 0x16, -1, -1, -1, -1, -1]
    } else if op == 3 {
        seq![-1, -1, -1, -1, -1, -1, -1, -1, -1, -1, -1, -1, 0x90]
    } else if op == 4 {
        seq![-1, -1, -1, -1, -1, -1, -1, -1, -1, -1, -1, -1, 0xb0]
    } else if op == 5 {
        seq![-1, -1, -1, -1, -1, -1, -1, -1, -1, -1, -1, -1, 0xf0]
    } else if op == 6 {
        seq![-1, -1, -1, 0x2c, -1, -1, 0x24, -1, -1, -1, -1, -1, -1]
    } else if op == 7 {
        seq![-1, -1, -1, -1, -1, -1, -1, -1, -1, -1, -1, -1, 0x30]
    } else if op == 8 {
        seq![-1, -1, -1, -1, -1, -1, -1, -1, -1, -1, -1, -1, 0xd0]
    } else if op == 9 {
        seq![-1, -1, -1, -1, -1, -1, -1, -1, -1, -1, -1, -1, 0x10]
    } else if op == 10 {
        seq![0x00, -1, -1, -1, -1, -1, -1, -1, -1, -1, -1, -1, -1]
    } else if op == 11 {
        seq![-1, -1, -1, -1, -1, -1, -1, -1, -1, -1, -1, -1, 0x50]
    } else if op == 12 {
        seq![-1, -1, -1, -1, -1, -1, -1, -1, -1, -1, -1, -1, 0x70]
    } else if op == 13 {
        seq![0x18, -1, -1, -1, -1, -1, -1, -1, -1, -1, -1, -1, -1]
    } else if op == 14 {
        seq![0xd8, -1, -1, -1, -1, -1, -1, -1, -1, -1, -1, -1, -1]
    } else if op == 15 {
        seq![0x58, -1, -1, -1, -1, -1, -1, -1, -1, -1, -1, -1, -1]
    } else if op == 16 {
        seq![0xb8, -1, -1, -1, -1, -1, -1, -1, -1, -1, -1, -1, -1]
    } else if op == 17 {
        seq![-1, -1, 0xc9, 0xcd, 0xdd, 0xd9, 0xc5, 0xd5, -1, -1, 0xc1, 0xd1, -1]
    } else if op == 18 {
        seq![-1, -1, 0xe0, 0xec, -1, -1, 0xe4, -1, -1, -1, -1, -1, -1]
    } else if op == 19 {
        seq![-1, -1, 0xc0, 0xcc, -1, -1, 0xc4, -1, -1, -1, -1, -1, -1]
    } else if op == 20 {
        seq![-1, -1, -1, 0xce, 0xde, -1, 0xc6, 0xd6, -1, -1, -1, -1, -1]
    } else if op == 21 {
        seq![0xca, -1, -1, -1, -1, -1, -1, -1, -1, -1, -1, -1, -1]
    } else if op == 22 {
        seq![0x88, -1, -1, -1, -1, -1, -1, -1, -1, -1, -1, -1, -1]
    } else if op == 23 {
        seq![-1, -1, 0x49, 0x4d, 0x5d, 0x59, 0x45, 0x55, -1, -1, 0x41, 0x51, -1]
    } else if op == 24 {
        seq![-1, -1, -1, 0xee, 0xfe, -1, 0xe6, 0xf6, -1, -1, -1, -1, -1]
    } else if op == 25 {
        seq![0xe8, -1, -1, -1, -1, -1, -1, -1, -1, -1, -1, -1, -1]
    } else if op == 26 {
        seq![0xc8, -1, -1, -1, -1, -1, -1, -1, -1, -1, -1, -1, -1]
    } else if op == 27 {
        seq![-1, -1, -1, 0x4c, -1, -1, -1, -1, -1, 0x6c, -1, -1, -1]
    } else if op == 28 {
        seq![-1, -1, -1, 0x20, -1, -1, -1, -1, -1, -1, -1, -1, -1]
    } else if op == 29 {
        seq![-1, -1, 0xa9, 0xad, 0xbd, 0xb9, 0xa5, 0xb5, -1, -1, 0xa1, 0xb1, -1]
    } else if op == 30 {
        seq![-1, -1, 0xa2, 0xae, -1, 0xbe, 0xa6, -1, 0xb6, -1, -1, -1, -1]
    } else if op == 31 {
        seq![-1, -1, 0xa0, 0xac, 0xbc, -1, 0xa4, 0xb4, -1, -1, -1, -1, -1]
    } else if op == 32 {
        seq![-1, 0x4a, -1, 0x4e, 0x5e, -1, 0x46, 0x56, -1, -1, -1, -1, -1]
    } else if op == 33 {
        seq![0xea, -1, -1, -1, -1, -1, -1, -1, -1, -1, -1, -1, -1]
    } else if op == 34 {
        seq![-1, -1, 0x09, 0x0d, 0x1d, 0x19, 0x05, 0x15, -1, -1, 0x01, 0x11, -1]
    } else if op == 35 {
        seq![0x48, -1, -1, -1, -1, -1, -1, -1, -1, -1, -1, -1, -1]
    } else if op == 36 {
        seq![0x08, -1, -1, -1, -1, -1, -1, -1, -1, -1, -1, -1, -1]
    } else if op == 37 {
        seq![0x68, -1, -1, -1, -1, -1, -1, -1, -1, -1, -1, -1, -1]
    } else if op == 38 {
        seq![0x28, -1, -1, -1, -1, -1, -1, -1, -1, -1, -1, -1, -1]
    } else if op == 39 {
        seq![-1, 0x2a, -1, 0x2e, 0x3e, -1, 0x26, 0x36, -1, -1, -1, -1, -1]
    } else if op == 40 {
        seq![-1, 0x6a, -1, 0x6e, 0x7e, -1, 0x66, 0x76, -1, -1, -1, -1, -1]
    } else if op == 41 {
        seq![0x40, -1, -1, -1, -1, -1, -1, -1, -1, -1, -1, -1, -1]
    } else if op == 42 {
        seq![0x60, -1, -1, -1, -1, -1, -1, -1, -1, -1, -1, -1, -1]
    } else if op == 43 {
        seq![-1, -1, 0xe9, 0xed, 0xfd, 0xf9, 0xe5, 0xf5, -1, -1, 0xe1, 0xf1, -1]
    } else if op == 44 {
        seq![0x38, -1, -1, -1, -1, -1, -1, -1, -1, -1, -1, -1, -1]
    } else if op == 45 {
        seq![0xf8, -1, -1, -1, -1, -1, -1, -1, -1, -1, -1, -1, -1]
    } else if op == 46 {
        seq![0x78, -1, -1, -1, -1, -1, -1, -1, -1, -1, -1, -1, -1]
    } else if op == 47 {
        seq![-1, -1, -1, 0x8d, 0x9d, 0x99, 0x85, 0x95, -1, -1, 0x81, 0x91, -1]
    } else if op == 48 {
        seq![-1, -1, -1, 0x8e, -1, -1, 0x86, -1, 0x96, -1, -1, -1, -1]
    } else if op == 49 {
        seq![-1, -1, -1, 0x8c, -1, -1, 0x84, 0x94, -1, -1, -1, -1, -1]
    } else if op == 50 {
        seq![0xaa, -1, -1, -1, -1, -1, -1, -1, -1, -1, -1, -1, -1]
    } else if op == 51 {
        seq![0xa8, -1, -1, -1, -1, -1, -1, -1, -1, -1, -1, -1, -1]
    } else if op == 52 {
        seq![0xba, -1, -1, -1, -1, -1, -1, -1, -1, -1, -1, -1, -1]
    } else if op == 53 {
        seq![0x8a, -1, -1, -1, -1, -1, -1, -1, -1, -1, -1, -1, -1]
    } else if op == 54 {
        seq![0x9a, -1, -1, -1, -1, -1, -1, -1, -1, -1, -1, -1, -1]
    } else if op == 55 {
        seq![0x98, -1, -1, -1, -1, -1, -1, -1, -1, -1, -1, -1, -1]
    } else {
        seq![]
    }
}

/// The opcode byte of mnemonic `op` in addressing mode `mode`, if the
/// instruction has that mode.
pub open spec fn opcode_of(op: nat, mode: nat) -> Option<u8> {
    pick(mode, table_row(op))
}

/// Finds a mnemonic among the 56.
pub fn find_mnemonic(s: &[char]) -> (r: Option<usize>)
    ensures
        r matches Some(i) ==> mnemonic_index(s@) == Some(i as nat),
        r is None ==> mnemonic_index(s@) is None,
{
    if s.len() != 3 {
        return None;
    }
    match (s[0], s[1], s[2]) {
        ('A', 'D', 'C') => Some(0),
        ('A', 'N', 'D') => Some(1),
        ('A', 'S', 'L') => Some(2),
        ('B', 'C', 'C') => Some(3),
        ('B', 'C', 'S') => Some(4),
        ('B', 'E', 'Q') => Some(5),
        ('B', 'I', 'T') => Some(6),
        ('B', 'M', 'I') => Some(7),
        ('B', 'N', 'E') => Some(8),
        ('B', 'P', 'L') => Some(9),
        ('B', 'R', 'K') => Some(10),
        ('B', 'V', 'C') => Some(11),
        ('B', 'V', 'S') => Some(12),
        ('C', 'L', 'C') => Some(13),
        ('C', 'L', 'D') => Some(14),
        ('C', 'L', 'I') => Some(15),
        ('C', 'L', 'V') => Some(16),
        ('C', 'M', 'P') => Some(17),
        ('C', 'P', 'X') => Some(18),
        ('C', 'P', 'Y') => Some(19),
        ('D', 'E', 'C') => Some(20),
        ('D', 'E', 'X') => Some(21),
        ('D', 'E', 'Y') => Some(22),
        ('E', 'O', 'R') => Some(23),
        ('I', 'N', 'C') => Some(24),
        ('I', 'N', 'X') => Some(25),
        ('I', 'N', 'Y') => Some(26),
        ('J', 'M', 'P') => Some(27),
        ('J', 'S', 'R') => Some(28),
        ('L', 'D', 'A') => Some(29),
        ('L', 'D', 'X') => Some(30),
        ('L', 'D', 'Y') => Some(31),
        ('L', 'S', 'R') => Some(32),
        ('N', 'O', 'P') => Some(33),
        ('O', 'R', 'A') => Some(34),
        ('P', 'H', 'A') => Some(35),
        ('P', 'H', 'P') => Some(36),
        ('P', 'L', 'A') => Some(37),
        ('P', 'L', 'P') => Some(38),
        ('R', 'O', 'L') => Some(39),
        ('R', 'O', 'R') => Some(40),
        ('R', 'T', 'I') => Some(41),
        ('R', 'T', 'S') => Some(42),
        ('S', 'B', 'C') => Some(43),
        ('S', 'E', 'C') => Some(44),
        ('S', 'E', 'D') => Some(45),
        ('S', 'E', 'I') => Some(46),
        ('S', 'T', 'A') => Some(47),
        ('S', 'T', 'X') => Some(48),
        ('S', 'T', 'Y') => Some(49),
        ('T', 'A', 'X') => Some(50),
        ('T', 'A', 'Y') => Some(51),
        ('T', 'S', 'X') => Some(52),
        ('T', 'X', 'A') => Some(53),
        ('T', 'X', 'S') => Some(54),
        ('T', 'Y', 'A') => Some(55),
        _ => None,
    }
}

fn pick_exec(mode: usize, row: [i32; 13]) -> (r: Option<u8>)
    requires
        row@.len() == 13,
    ensures
        r == pick(mode as nat, row@.map_values(|v: i32| v as int)),
{
    if mode < 13 && row[mode] >= 0 && row[mode] <= 255 {
        Some(row[mode] as u8)
    } else {
        None
    }
}

#[verifier::rlimit(50)]
#[verifier::spinoff_prover]
fn row_exec(op: usize) -> (r: [i32; 13])
    requires
        op < 56,
    ensures
        r@.map_values(|v: i32| v as int) == table_row(op as nat),
{
    if op == 0 {
        let row: [i32; 13] = [-1, -1, 0x69, 0x6d, 0x7d, 0x79, 0x65, 0x75, -1, -1, 0x61, 0x71, -1];
        assert(row@.map_values(|v: i32| v as int) =~= table_row(op as nat));
        row
    } else if op == 1 {
        let row: [i32; 13] = [-1, -1, 0x29, 0x2d, 0x3d, 0x39, 0x25, 0x35, -1, -1, 0x21, 0x31, -1];
        assert(row@.map_values(|v: i32| v as int) =~= table_row(op as nat));
        row
    } else if op == 2 {
        let row: [i32; 13] = [-1, 0x0a, -1, 0x0e, 0x1e, -1, 0x06, 0x16, -1, -1, -1, -1, -1];
        assert(row@.map_values(|v: i32| v as int) =~= table_row(op as nat));
        row
    } else if op == 3 {
        let row: [i32; 13] = [-1, -1, -1, -1, -1, -1, -1, -1, -1, -1, -1, -1, 0x90];
        assert(row@.map_values(|v: i32| v as int) =~= table_row(op as nat));
        row
    } else if op == 4 {
        let row: [i32; 13] = [-1, -1, -1, -1, -1, -1, -1, -1, -1, -1, -1, -1, 0xb0];
        assert(row@.map_values(|v: i32| v as int) =~= table_row(op as nat));
        row
    } else if op == 5 {
        let row: [i32; 13] = [-1, -1, -1, -1, -1, -1, -1, -1, -1, -1, -1, -1, 0xf0];
        assert(row@.map_values(|v: i32| v as int) =~= table_row(op as nat));
        row
    } else if op == 6 {
        let row: [i32; 13] = [-1, -1, -1, 0x2c, -1, -1, 0x24, -1, -1, -1, -1, -1, -1];
        assert(row@.map_values(|v: i32| v as int) =~= table_row(op as nat));
        row
    } else if op == 7 {
        let row: [i32; 13] = [-1, -1, -1, -1, -1, -1, -1, -1, -1, -1, -1, -1, 0x30];
        assert(row@.map_values(|v: i32| v as int) =~= table_row(op as nat));
        row
    } else if op == 8 {
        let row: [i32; 13] = [-1, -1, -1, -1, -1, -1, -1, -1, -1, -1, -1, -1, 0xd0];
        assert(row@.map_values(|v: i32| v as int) =~= table_row(op as nat));
        row
    } else if op == 9 {
        let row: [i32; 13] = [-1, -1, -1, -1, -1, -1, -1, -1, -1, -1, -1, -1, 0x10];
        assert(row@.map_values(|v: i32| v as int) =~= table_row(op as nat));
        row
    } else if op == 10 {
        let row: [i32; 13] = [0x00, -1, -1, -1, -1, -1, -1, -1, -1, -1, -1, -1, -1];
        assert(row@.map_values(|v: i32| v as int) =~= table_row(op as nat));
        row
    } else if op == 11 {
        let row: [i32; 13] = [-1, -1, -1, -1, -1, -1, -1, -1, -1, -1, -1, -1, 0x50];
        assert(row@.map_values(|v: i32| v as int) =~= table_row(op as nat));
        row
    } else if op == 12 {
        let row: [i32; 13] = [-1, -1, -1, -1, -1, -1, -1, -1, -1, -1, -1, -1, 0x70];
        assert(row@.map_values(|v: i32| v as int) =~= table_row(op as nat));
        row
    } else if op == 13 {
        let row: [i32; 13] = [0x18, -1, -1, -1, -1, -1, -1, -1, -1, -1, -1, -1, -1];
        assert(row@.map_values(|v: i32| v as int) =~= table_row(op as nat));
        row
    } else if op == 14 {
        let row: [i32; 13] = [0xd8, -1, -1, -1, -1, -1, -1, -1, -1, -1, -1, -1, -1];
        assert(row@.map_values(|v: i32| v as int) =~= table_row(op as nat));
        row
    } else if op == 15 {
        let row: [i32; 13] = [0x58, -1, -1, -1, -1, -1, -1, -1, -1, -1, -1, -1, -1];
        assert(row@.map_values(|v: i32| v as int) =~= table_row(op as nat));
        row
    } else if op == 16 {
        let row: [i32; 13] = [0xb8, -1, -1, -1, -1, -1, -1, -1, -1, -1, -1, -1, -1];
        assert(row@.map_values(|v: i32| v as int) =~= table_row(op as nat));
        row
    } else if op == 17 {
        let row: [i32; 13] = [-1, -1, 0xc9, 0xcd, 0xdd, 0xd9, 0xc5, 0xd5, -1, -1, 0xc1, 0xd1, -1];
        assert(row@.map_values(|v: i32| v as int) =~= table_row(op as nat));
        row
    } else if op == 18 {
        let row: [i32; 13] = [-1, -1, 0xe0, 0xec, -1, -1, 0xe4, -1, -1, -1, -1, -1, -1];
        assert(row@.map_values(|v: i32| v as int) =~= table_row(op as nat));
        row
    } else if op == 19 {
        let row: [i32; 13] = [-1, -1, 0xc0, 0xcc, -1, -1, 0xc4, -1, -1, -1, -1, -1, -1];
        assert(row@.map_values(|v: i32| v as int) =~= table_row(op as nat));
        row
    } else if op == 20 {
        let row: [i32; 13] = [-1, -1, -1, 0xce, 0xde, -1, 0xc6, 0xd6, -1, -1, -1, -1, -1];
        assert(row@.map_values(|v: i32| v as int) =~= table_row(op as nat));
        row
    } else if op == 21 {
        let row: [i32; 13] = [0xca, -1, -1, -1, -1, -1, -1, -1, -1, -1, -1, -1, -1];
        assert(row@.map_values(|v: i32| v as int) =~= table_row(op as nat));
        row
    } else if op == 22 {
        let row: [i32; 13] = [0x88, -1, -1, -1, -1, -1, -1, -1, -1, -1, -1, -1, -1];
        assert(row@.map_values(|v: i32| v as int) =~= table_row(op as nat));
        row
    } else if op == 23 {
        let row: [i32; 13] = [-1, -1, 0x49, 0x4d, 0x5d, 0x59, 0x45, 0x55, -1, -1, 0x41, 0x51, -1];
        assert(row@.map_values(|v: i32| v as int) =~= table_row(op as nat));
        row
    } else if op == 24 {
        let row: [i32; 13] = [-1, -1, -1, 0xee, 0xfe, -1, 0xe6, 0xf6, -1, -1, -1, -1, -1];
        assert(row@.map_values(|v: i32| v as int) =~= table_row(op as nat));
        row
    } else if op == 25 {
        let row: [i32; 13] = [0xe8, -1, -1, -1, -1, -1, -1, -1, -1, -1, -1, -1, -1];
        assert(row@.map_values(|v: i32| v as int) =~= table_row(op as nat));
        row
    } else if op == 26 {
        let row: [i32; 13] = [0xc8, -1, -1, -1, -1, -1, -1, -1, -1, -1, -1, -1, -1];
        assert(row@.map_values(|v: i32| v as int) =~= table_row(op as nat));
        row
    } else if op == 27 {
        let row: [i32; 13] = [-1, -1, -1, 0x4c, -1, -1, -1, -1, -1, 0x6c, -1, -1, -1];
        assert(row@.map_values(|v: i32| v as int) =~= table_row(op as nat));
        row
    } else if op == 28 {
        let row: [i32; 13] = [-1, -1, -1, 0x20, -1, -1, -1, -1, -1, -1, -1, -1, -1];
        assert(row@.map_values(|v: i32| v as int) =~= table_row(op as nat));
        row
    } else if op == 29 {
        let row: [i32; 13] = [-1, -1, 0xa9, 0xad, 0xbd, 0xb9, 0xa5, 0xb5, -1, -1, 0xa1, 0xb1, -1];
        assert(row@.map_values(|v: i32| v as int) =~= table_row(op as nat));
        row
    } else if op == 30 {
        let row: [i32; 13] = [-1, -1, 0xa2, 0xae, -1, 0xbe, 0xa6, -1, 0xb6, -1, -1, -1, -1];
        assert(row@.map_values(|v: i32| v as int) =~= table_row(op as nat));
        row
    } else if op == 31 {
        let row: [i32; 13] = [-1, -1, 0xa0, 0xac, 0xbc, -1, 0xa4, 0xb4, -1, -1, -1, -1, -1];
        assert(row@.map_values(|v: i32| v as int) =~= table_row(op as nat));
        row
    } else if op == 32 {
        let row: [i32; 13] = [-1, 0x4a, -1, 0x4e, 0x5e, -1, 0x46, 0x56, -1, -1, -1, -1, -1];
        assert(row@.map_values(|v: i32| v as int) =~= table_row(op as nat));
        row
    } else if op == 33 {
        let row: [i32; 13] = [0xea, -1, -1, -1, -1, -1, -1, -1, -1, -1, -1, -1, -1];
        assert(row@.map_values(|v: i32| v as int) =~= table_row(op as nat));
        row
    } else if op == 34 {
        let row: [i32; 13] = [-1, -1, 0x09, 0x0d, 0x1d, 0x19, 0x05, 0x15, -1, -1, 0x01, 0x11, -1];
        assert(row@.map_values(|v: i32| v as int) =~= table_row(op as nat));
        row
    } else if op == 35 {
        let row: [i32; 13] = [0x48, -1, -1, -1, -1, -1, -1, -1, -1, -1, -1, -1, -1];
        assert(row@.map_values(|v: i32| v as int) =~= table_row(op as nat));
        row
    } else if op == 36 {
        let row: [i32; 13] = [0x08, -1, -1, -1, -1, -1, -1, -1, -1, -1, -1, -1, -1];
        assert(row@.map_values(|v: i32| v as int) =~= table_row(op as nat));
        row
    } else if op == 37 {
        let row: [i32; 13] = [0x68, -1, -1, -1, -1, -1, -1, -1, -1, -1, -1, -1, -1];
        assert(row@.map_values(|v: i32| v as int) =~= table_row(op as nat));
        row
    } else if op == 38 {
        let row: [i32; 13] = [0x28, -1, -1, -1, -1, -1, -1, -1, -1, -1, -1, -1, -1];
        assert(row@.map_values(|v: i32| v as int) =~= table_row(op as nat));
        row
    } else if op == 39 {
        let row: [i32; 13] = [-1, 0x2a, -1, 0x2e, 0x3e, -1, 0x26, 0x36, -1, -1, -1, -1, -1];
        assert(row@.map_values(|v: i32| v as int) =~= table_row(op as nat));
        row
    } else if op == 40 {
        let row: [i32; 13] = [-1, 0x6a, -1, 0x6e, 0x7e, -1, 0x66, 0x76, -1, -1, -1, -1, -1];
        assert(row@.map_values(|v: i32| v as int) =~= table_row(op as nat));
        row
    } else if op == 41 {
        let row: [i32; 13] = [0x40, -1, -1, -1, -1, -1, -1, -1, -1, -1, -1, -1, -1];
        assert(row@.map_values(|v: i32| v as int) =~= table_row(op as nat));
        row
    } else if op == 42 {
        let row: [i32; 13] = [0x60, -1, -1, -1, -1, -1, -1, -1, -1, -1, -1, -1, -1];
        assert(row@.map_values(|v: i32| v as int) =~= table_row(op as nat));
        row
    } else if op == 43 {
        let row: [i32; 13] = [-1, -1, 0xe9, 0xed, 0xfd, 0xf9, 0xe5, 0xf5, -1, -1, 0xe1, 0xf1, -1];
        assert(row@.map_values(|v: i32| v as int) =~= table_row(op as nat));
        row
    } else if op == 44 {
        let row: [i32; 13] = [0x38, -1, -1, -1, -1, -1, -1, -1, -1, -1, -1, -1, -1];
        assert(row@.map_values(|v: i32| v as int) =~= table_row(op as nat));
        row
    } else if op == 45 {
        let row: [i32; 13] = [0xf8, -1, -1, -1, -1, -1, -1, -1, -1, -1, -1, -1, -1];
        assert(row@.map_values(|v: i32| v as int) =~= table_row(op as nat));
        row
    } else if op == 46 {
        let row: [i32; 13] = [0x78, -1, -1, -1, -1, -1, -1, -1, -1, -1, -1, -1, -1];
        assert(row@.map_values(|v: i32| v as int) =~= table_row(op as nat));
        row
    } else if op == 47 {
        let row: [i32; 13] = [-1, -1, -1, 0x8d, 0x9d, 0x99, 0x85, 0x95, -1, -1, 0x81, 0x91, -1];
        assert(row@.map_values(|v: i32| v as int) =~= table_row(op as nat));
        row
    } else if op == 48 {
        let row: [i32; 13] = [-1, -1, -1, 0x8e, -1, -1, 0x86, -1, 0x96, -1, -1, -1, -1];
        assert(row@.map_values(|v: i32| v as int) =~= table_row(op as nat));
        row
    } else if op == 49 {
        let row: [i32; 13] = [-1, -1, -1, 0x8c, -1, -1, 0x84, 0x94, -1, -1, -1, -1, -1];
        assert(row@.map_values(|v: i32| v as int) =~= table_row(op as nat));
        row
    } else if op == 50 {
        let row: [i32; 13] = [0xaa, -1, -1, -1, -1, -1, -1, -1, -1, -1, -1, -1, -1];
        assert(row@.map_values(|v: i32| v as int) =~= table_row(op as nat));
        row
    } else if op == 51 {
        let row: [i32; 13] = [0xa8, -1, -1, -1, -1, -1, -1, -1, -1, -1, -1, -1, -1];
        assert(row@.map_values(|v: i32| v as int) =~= table_row(op as nat));
        row
    } else if op == 52 {
        let row: [i32; 13] = [0xba, -1, -1, -1, -1, -1, -1, -1, -1, -1, -1, -1, -1];
        assert(row@.map_values(|v: i32| v as int) =~= table_row(op as nat));
        row
    } else if op == 53 {
        let row: [i32; 13] = [0x8a, -1, -1, -1, -1, -1, -1, -1, -1, -1, -1, -1, -1];
        assert(row@.map_values(|v: i32| v as int) =~= table_row(op as nat));
        row
    } else if op == 54 {
        let row: [i32; 13] = [0x9a, -1, -1, -1, -1, -1, -1, -1, -1, -1, -1, -1, -1];
        assert(row@.map_values(|v: i32| v as int) =~= table_row(op as nat));
        row
    } else {
        let row: [i32; 13] = [0x98, -1, -1, -1, -1, -1, -1, -1, -1, -1, -1, -1, -1];
        assert(row@.map_values(|v: i32| v as int) =~= table_row(op as nat));
        row
    }
}

/// The opcode byte of mnemonic `op` in addressing mode `mode`; `None` where
/// the instruction has no such mode.
pub fn format_opcode(op: usize, mode: usize) -> (r: Option<u8>)
    ensures
        r == opcode_of(op as nat, mode as nat),
{
    if op < 56 {
        pick_exec(mode, row_exec(op))
    } else {
        None
    }
}

} // verus!
