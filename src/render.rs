//! The last pass: resolves label references and writes the byte stream out
//! as a hex listing, a debug listing or a ROM image.

use vstd::prelude::*;
use crate::encode::{hex_chars, hex_digit, refs_below, rows, ByteToken, MachineCode};
use crate::text::{pad_right, push_all, push_padded, views};
use crate::literal::{all_digits, digits_value, parse_field, power};
use crate::text::{chars_of, split_words, words};
use crate::tokenize::{define_views, DefineView, Label};

verus! {

/// A byte as two hexadecimal digits.
pub open spec fn hex2(b: u8) -> Seq<char> {
    seq![hex_chars()[b as int / 16], hex_chars()[b as int % 16]]
}

/// A number below 4096 as hexadecimal digits, at least two of them.
pub open spec fn hex_min2(n: nat) -> Seq<char> {
    if n < 256 {
        hex2(n as u8)
    } else {
        seq![hex_chars()[n as int / 256]] + hex2((n % 256) as u8)
    }
}

/// The displacement byte of a branch to `target` whose displacement byte
/// stands at `origin`. Each side is read as a signed byte and the arithmetic
/// wraps, so everything is taken modulo 256.
pub open spec fn branch_offset(target: u16, origin: u16) -> u8 {
    let t = target as int;
    let o = origin as int;
    if t < o {
        ((t - (o - 1) - 2) % 256) as u8
    } else if t == o {
        0
    } else {
        ((t - o - 1) % 256) as u8
    }
}

/// The two bytes that an absolute reference to `address` renders as: the
/// address modulo 255, then the address divided by 255.
pub open spec fn absolute_text(address: u16) -> Seq<char> {
    hex2((address as int % 255) as u8) + seq![' '] + hex_min2((address as int / 255) as nat)
}

/// Whether a statement's first byte is the opcode of `JMP` absolute, `JMP`
/// indirect or `JSR`.
pub open spec fn is_jump(line: Seq<ByteToken>) -> bool {
    line.len() > 0 && (line[0] == ByteToken::Byte(0x4c) || line[0] == ByteToken::Byte(0x6c)
        || line[0] == ByteToken::Byte(0x20))
}

/// Renders one byte token, with the byte counter before it; gives the text
/// and the counter after it. Every rendered byte is followed by a space. A
/// reference beyond the label table does not occur in a well-formed program
/// (see [`refs_below`]); the function gives it no text.
pub open spec fn render_token(
    out: Seq<char>,
    pc: u16,
    t: ByteToken,
    jump: bool,
    addrs: Seq<u16>,
) -> (Seq<char>, u16) {
    match t {
        ByteToken::Byte(b) => (out + hex2(b) + seq![' '], ((pc + 1) % 65536) as u16),
        ByteToken::LabelRef(k) => if k < addrs.len() {
            if jump {
                (out + absolute_text(addrs[k as int]) + seq![' '], ((pc + 2) % 65536) as u16)
            } else {
                (
                    out + hex2(branch_offset(addrs[k as int], pc)) + seq![' '],
                    ((pc + 1) % 65536) as u16,
                )
            }
        } else {
            (out, ((pc + 1) % 65536) as u16)
        },
        ByteToken::Origin(_) => (out, pc),
    }
}

/// Renders the tokens of one statement in order.
pub open spec fn render_tokens(
    out: Seq<char>,
    pc: u16,
    line: Seq<ByteToken>,
    jump: bool,
    addrs: Seq<u16>,
) -> (Seq<char>, u16)
    decreases line.len(),
{
    if line.len() == 0 {
        (out, pc)
    } else {
        let (o, p) = render_tokens(out, pc, line.drop_last(), jump, addrs);
        render_token(o, p, line.last(), jump, addrs)
    }
}

/// Renders one statement: a location directive as `* = `; any other as its
/// annotation (in debug mode), its bytes, a separating space and (in debug
/// mode) a line break.
pub open spec fn render_line(
    out: Seq<char>,
    pc: u16,
    line: Seq<ByteToken>,
    info: Seq<char>,
    debug: bool,
    addrs: Seq<u16>,
) -> (Seq<char>, u16) {
    if line.len() > 0 && line[0] is Origin {
        (out + seq!['*', ' ', '=', ' '], pc)
    } else {
        let o1 = if debug {
            out + info
        } else {
            out
        };
        let (o2, p2) = render_tokens(o1, pc, line, is_jump(line), addrs);
        let o3 = if o2.len() == 0 || o2.last() != ' ' {
            o2.push(' ')
        } else {
            o2
        };
        (
            if debug {
                o3.push('\n')
            } else {
                o3
            },
            p2,
        )
    }
}

/// The header line that lists one constant in the debug listing.
pub open spec fn define_line(d: DefineView) -> Seq<char> {
    seq![' ', ' ', ' ', ' ', ' '] + pad_right(d.name, 6) + seq![' ', '=', ' ', ' ', ' ', '$']
        + hex2(d.value.upper) + hex2(d.value.lower) + seq!['\n']
}

/// The header lines of all constants.
pub open spec fn define_header(ds: Seq<DefineView>) -> Seq<char>
    decreases ds.len(),
{
    if ds.len() == 0 {
        Seq::empty()
    } else {
        define_header(ds.drop_last()) + define_line(ds.last())
    }
}

/// The annotation of statement `i`, or nothing when there is none.
pub open spec fn info_at(infos: Seq<Seq<char>>, i: int) -> Seq<char> {
    if 0 <= i < infos.len() {
        infos[i]
    } else {
        Seq::empty()
    }
}

/// The listing of the first `k` statements, and the byte counter after them.
pub open spec fn render_prefix(
    lines: Seq<Seq<ByteToken>>,
    infos: Seq<Seq<char>>,
    defines: Seq<DefineView>,
    debug: bool,
    addrs: Seq<u16>,
    k: nat,
) -> (Seq<char>, u16)
    decreases k,
{
    if k == 0 || k > lines.len() {
        (
            if debug {
                define_header(defines)
            } else {
                Seq::empty()
            },
            0,
        )
    } else {
        let (o, p) = render_prefix(lines, infos, defines, debug, addrs, (k - 1) as nat);
        render_line(o, p, lines[k - 1], info_at(infos, k - 1), debug, addrs)
    }
}

/// The listing of a whole program.
pub open spec fn render(
    lines: Seq<Seq<ByteToken>>,
    infos: Seq<Seq<char>>,
    defines: Seq<DefineView>,
    debug: bool,
    addrs: Seq<u16>,
) -> Seq<char> {
    render_prefix(lines, infos, defines, debug, addrs, lines.len()).0
}

/// The addresses of a label table.
pub open spec fn addresses(labels: Seq<Label>) -> Seq<u16> {
    labels.map_values(|l: Label| l.address)
}

/// Appends a byte as two hexadecimal digits.
fn push_hex2(out: &mut Vec<char>, b: u8)
    ensures
        final(out)@ == old(out)@ + hex2(b),
{
    out.push(hex_digit(b as u16 / 16));
    out.push(hex_digit(b as u16 % 16));
    assert(final(out)@ =~= old(out)@ + hex2(b));
}

/// The displacement byte of a branch to `target` whose displacement byte
/// stands at `origin`.
pub fn branch_byte(target: u16, origin: u16) -> (r: u8)
    ensures
        r == branch_offset(target, origin),
{
    if target == origin {
        return 0;
    }
    let x: u32 = (target as u32 + 65536 - origin as u32 - 1) % 256;
    proof {
        let d = target as int - origin as int - 1;
        vstd::arithmetic::div_mod::lemma_mod_multiples_vanish(256, d, 256);
        assert(256 * 256 + d == target as int + 65536 - origin as int - 1);
        assert(target as int - (origin as int - 1) - 2 == d);
    }
    x as u8
}

/// Renders one byte token.
fn render_one(out: &mut Vec<char>, pc: u16, t: ByteToken, jump: bool, labels: &Vec<Label>) -> (p: u16)
    requires
        t matches ByteToken::LabelRef(k) ==> k < labels@.len(),
    ensures
        (final(out)@, p) == render_token(old(out)@, pc, t, jump, addresses(labels@)),
{
    match t {
        ByteToken::Byte(b) => {
            push_hex2(out, b);
            out.push(' ');
            ((pc as u32 + 1) % 65536) as u16
        },
        ByteToken::LabelRef(k) => {
            if k < labels.len() {
                let a = labels[k].address;
                if jump {
                    push_hex2(out, (a % 255) as u8);
                    out.push(' ');
                    let hi = a / 255;
                    if hi < 256 {
                        push_hex2(out, hi as u8);
                    } else {
                        out.push(hex_digit(hi / 256));
                        push_hex2(out, (hi % 256) as u8);
                    }
                    out.push(' ');
                    assert(final(out)@ =~= old(out)@ + absolute_text(a) + seq![' ']);
                    ((pc as u32 + 2) % 65536) as u16
                } else {
                    push_hex2(out, branch_byte(a, pc));
                    out.push(' ');
                    ((pc as u32 + 1) % 65536) as u16
                }
            } else {
                proof {
                    assert(false);
                }
                ((pc as u32 + 1) % 65536) as u16
            }
        },
        ByteToken::Origin(_) => pc,
    }
}

/// Renders one statement.
fn render_row(
    out: &mut Vec<char>,
    pc: u16,
    line: &Vec<ByteToken>,
    info: &[char],
    debug: bool,
    labels: &Vec<Label>,
) -> (p: u16)
    requires
        forall|k: int|
            0 <= k < line@.len() ==> (#[trigger] line@[k] matches ByteToken::LabelRef(j) ==> j
                < labels@.len()),
    ensures
        (final(out)@, p) == render_line(old(out)@, pc, line@, info@, debug, addresses(labels@)),
{
    if line.len() > 0 {
        if let ByteToken::Origin(_) = line[0] {
            out.push('*');
            out.push(' ');
            out.push('=');
            out.push(' ');
            assert(final(out)@ =~= old(out)@ + seq!['*', ' ', '=', ' ']);
            return pc;
        }
    }
    if debug {
        push_all(out, info);
    }
    let ghost o1 = out@;
    let jump = line.len() > 0 && (line[0] == ByteToken::Byte(0x4c) || line[0] == ByteToken::Byte(
        0x6c,
    ) || line[0] == ByteToken::Byte(0x20));
    let mut p = pc;
    let mut k: usize = 0;
    assert(line@.subrange(0, 0) =~= Seq::<ByteToken>::empty());
    while k < line.len()
        invariant
            k <= line@.len(),
            jump == is_jump(line@),
            forall|k: int|
                0 <= k < line@.len() ==> (#[trigger] line@[k] matches ByteToken::LabelRef(j) ==> j
                    < labels@.len()),
            (out@, p) == render_tokens(o1, pc, line@.subrange(0, k as int), jump, addresses(labels@)),
        decreases line@.len() - k,
    {
        assert(line@.subrange(0, k + 1).drop_last() =~= line@.subrange(0, k as int));
        p = render_one(out, p, line[k], jump, labels);
        k = k + 1;
    }
    assert(line@.subrange(0, k as int) =~= line@);
    if out.len() == 0 || out[out.len() - 1] != ' ' {
        out.push(' ');
    }
    if debug {
        out.push('\n');
    }
    p
}

/// Relies on `String`'s `FromIterator<&char>`: the string holds the
/// characters in order.
#[verifier::external_body]
fn string_from_chars(v: &Vec<char>) -> (r: String)
    ensures
        r@ == v@,
{
    v.iter().collect()
}

/// Writes the program out: in hex form the bytes as space-separated pairs of
/// hexadecimal digits; in debug form the constants first, then each
/// statement on a line of its own after its annotation. A reference to a
/// label becomes the label's address after `JMP` or `JSR` (two bytes,
/// reduced by 255 rather than 256), and the branch displacement to it
/// elsewhere. The displacement is taken from a byte counter that starts at
/// zero and counts the rendered bytes; a location directive leaves it alone.
pub fn machine_code_to_str(code: &MachineCode, labels: &Vec<Label>, debug: bool) -> (r: String)
    requires
        refs_below(rows(code.binary_data@), labels@.len()),
    ensures
        r@ == render(
            rows(code.binary_data@),
            views(code.debug_info@),
            define_views(code.defines@),
            debug,
            addresses(labels@),
        ),
{
    let ghost lines = rows(code.binary_data@);
    let ghost infos = views(code.debug_info@);
    let ghost ds = define_views(code.defines@);
    let ghost addrs = addresses(labels@);
    let mut out: Vec<char> = Vec::new();
    if debug {
        let mut j: usize = 0;
        assert(ds.subrange(0, 0) =~= Seq::<DefineView>::empty());
        while j < code.defines.len()
            invariant
                j <= code.defines@.len(),
                ds == define_views(code.defines@),
                out@ == define_header(ds.subrange(0, j as int)),
            decreases code.defines@.len() - j,
        {
            let d = &code.defines[j];
            assert(ds.subrange(0, j + 1).drop_last() =~= ds.subrange(0, j as int));
            assert(ds.subrange(0, j + 1).last() == d@);
            let ghost o = out@;
            out.push(' ');
            out.push(' ');
            out.push(' ');
            out.push(' ');
            out.push(' ');
            push_padded(&mut out, d.name.as_slice(), 6);
            out.push(' ');
            out.push('=');
            out.push(' ');
            out.push(' ');
            out.push(' ');
            out.push('$');
            push_hex2(&mut out, d.value.upper);
            push_hex2(&mut out, d.value.lower);
            out.push('\n');
            assert(out@ =~= o + define_line(d@));
            j = j + 1;
        }
        assert(ds.subrange(0, j as int) =~= ds);
    }
    let mut pc: u16 = 0;
    let mut i: usize = 0;
    while i < code.binary_data.len()
        invariant
            i <= code.binary_data@.len(),
            lines == rows(code.binary_data@),
            infos == views(code.debug_info@),
            ds == define_views(code.defines@),
            addrs == addresses(labels@),
            refs_below(lines, labels@.len()),
            (out@, pc) == render_prefix(lines, infos, ds, debug, addrs, i as nat),
        decreases code.binary_data@.len() - i,
    {
        let empty: Vec<char> = Vec::new();
        let info: &[char] = if i < code.debug_info.len() {
            code.debug_info[i].as_slice()
        } else {
            empty.as_slice()
        };
        assert(info@ == info_at(infos, i as int));
        assert(lines[i as int] == code.binary_data@[i as int]@);
        assert forall|k: int| 0 <= k < code.binary_data@[i as int]@.len() implies (
        #[trigger] code.binary_data@[i as int]@[k] matches ByteToken::LabelRef(j) ==> j
            < labels@.len()) by {
            assert(lines[i as int][k] == code.binary_data@[i as int]@[k]);
        }
        pc = render_row(&mut out, pc, &code.binary_data[i], info, debug, labels);
        i = i + 1;
    }
    string_from_chars(&out)
}

/// The magic bytes that open a ROM image: `6502ROM...` in ASCII.
pub open spec fn rom_header() -> Seq<u8> {
    seq![0x36u8, 0x35, 0x30, 0x32, 0x52, 0x4f, 0x4d, 0x2e, 0x2e, 0x2e]
}

/// The byte that a word of one or two hexadecimal digits writes.
pub open spec fn hex_byte(w: Seq<char>) -> Option<u8> {
    if 1 <= w.len() <= 2 && all_digits(w, 16) {
        Some(digits_value(w, 16) as u8)
    } else {
        None
    }
}

/// The bytes that a sequence of hexadecimal words writes, if each is one.
pub open spec fn rom_bytes(ws: Seq<Seq<char>>) -> Option<Seq<u8>>
    decreases ws.len(),
{
    if ws.len() == 0 {
        Some(Seq::empty())
    } else {
        match (rom_bytes(ws.drop_last()), hex_byte(ws.last())) {
            (Some(b), Some(x)) => Some(b.push(x)),
            _ => None,
        }
    }
}

/// The ROM image of a hex listing: the magic header, then one byte per
/// word of the listing.
pub open spec fn rom_of(listing: Seq<char>) -> Option<Seq<u8>> {
    match rom_bytes(words(listing)) {
        Some(b) => Some(rom_header() + b),
        None => None,
    }
}

/// Turns a hex listing into a ROM image: the magic header `6502ROM...`, then
/// each word of the listing as one byte. `None` when a word is not one or two
/// hexadecimal digits, as the `* = ` of a location directive is not.
pub fn rom_image(listing: &str) -> (r: Option<Vec<u8>>)
    ensures
        match (rom_of(listing@), r) {
            (Some(b), Some(v)) => v@ == b,
            (None, None) => true,
            _ => false,
        },
{
    let text = chars_of(listing);
    let ws = split_words(text.as_slice());
    let ghost wv = crate::text::views(ws@);
    let mut out: Vec<u8> = vec![0x36u8, 0x35, 0x30, 0x32, 0x52, 0x4f, 0x4d, 0x2e, 0x2e, 0x2e];
    assert(out@ =~= rom_header());
    let mut i: usize = 0;
    assert(wv.subrange(0, 0) =~= Seq::<Seq<char>>::empty());
    assert(rom_header() + Seq::<u8>::empty() =~= rom_header());
    while i < ws.len()
        invariant
            i <= ws@.len(),
            wv == crate::text::views(ws@),
            wv == words(listing@),
            rom_bytes(wv.subrange(0, i as int)) matches Some(b) && out@ == rom_header() + b,
        decreases ws@.len() - i,
    {
        let ghost prev = out@;
        let ghost next = wv.subrange(0, i + 1);
        assert(next.drop_last() =~= wv.subrange(0, i as int));
        assert(next.last() == ws@[i as int]@);
        let w = ws[i].as_slice();
        if w.len() < 1 || w.len() > 2 {
            proof {
                assert(hex_byte(next.last()) is None);
                assert(rom_bytes(next) is None);
                lemma_rom_err(wv, i as int + 1);
            }
            return None;
        }
        match parse_field(w, 0, w.len(), 16) {
            Some(v) => {
                proof {
                    assert(w@.subrange(0, w@.len() as int) =~= w@);
                    reveal_with_fuel(power, 3);
                    crate::literal::lemma_digits_bound(w@, 16);
                }
                out.push(v as u8);
                assert(out@ =~= rom_header() + rom_bytes(next)->0);
            },
            None => {
                proof {
                    assert(w@.subrange(0, w@.len() as int) =~= w@);
                    assert(hex_byte(next.last()) is None);
                    assert(rom_bytes(next) is None);
                    lemma_rom_err(wv, i as int + 1);
                }
                return None;
            },
        }
        i = i + 1;
    }
    assert(wv.subrange(0, i as int) =~= wv);
    Some(out)
}

proof fn lemma_rom_err(ws: Seq<Seq<char>>, k: int)
    requires
        0 <= k <= ws.len(),
        rom_bytes(ws.subrange(0, k)) is None,
    ensures
        rom_bytes(ws) is None,
    decreases ws.len() - k,
{
    if k < ws.len() {
        assert(ws.subrange(0, k + 1).drop_last() =~= ws.subrange(0, k));
        lemma_rom_err(ws, k + 1);
    } else {
        assert(ws.subrange(0, k) =~= ws);
    }
}

} // verus!
