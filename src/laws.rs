//! Properties that hold across the passes, stated over the spec functions
//! of the passes and proved.

use vstd::prelude::*;
use crate::encode::{
    encode, hex_chars, lemma_encode_err,
    accumulator_word, bare_operand, encode_instruction, encode_line, encode_prefix, pat_close,
    pat_x, pat_y, pc_at, resolved_labels, ByteToken, EncState,
};
use crate::opcodes::{mnemonic_index, JMP, JSR};
use crate::render::{branch_offset, hex2, is_jump, render_line, render_token, render_tokens};
use crate::text::{ends_with, strip_prefix, strip_suffix};
use crate::tokenize::{
    find_name, label_names, AsmError, DefineView, LabelView, TokenLineView,
};
use crate::literal::{
    all_digits, decode_u16, digit_value, decode_u8, digits_value, is_decimal, lemma_digits_bound,
    lemma_digits_concat, power, size_of, starts_with, AddressSize, HexPair,
};

verus! {

/// The value that `s` writes when it is a one-byte literal in hexadecimal
/// (`$` and two digits), binary (`%` and eight digits) or decimal form (at
/// most 255, without leading zero).
pub open spec fn one_byte_literal(s: Seq<char>) -> Option<nat> {
    if starts_with(s, '$') && s.len() == 3 && all_digits(s.subrange(1, 3), 16) {
        Some(digits_value(s.subrange(1, 3), 16))
    } else if starts_with(s, '%') && s.len() == 9 && all_digits(s.subrange(1, 9), 2) {
        Some(digits_value(s.subrange(1, 9), 2))
    } else if is_decimal(s) && s[0] != '0' && digits_value(s, 10) <= 255 {
        Some(digits_value(s, 10))
    } else {
        None
    }
}

/// The value that `s` writes when it is a two-byte literal in hexadecimal
/// (`$` and four digits), binary (`%` and sixteen digits) or octal form (`0`
/// and six digits, at most 0xFFFF).
pub open spec fn two_byte_literal(s: Seq<char>) -> Option<nat> {
    if starts_with(s, '$') && s.len() == 5 && all_digits(s.subrange(1, 5), 16) {
        Some(digits_value(s.subrange(1, 5), 16))
    } else if starts_with(s, '%') && s.len() == 17 && all_digits(s.subrange(1, 17), 2) {
        Some(digits_value(s.subrange(1, 17), 2))
    } else if starts_with(s, '0') && s.len() == 7 && all_digits(s.subrange(1, 7), 8)
        && digits_value(s.subrange(1, 7), 8) <= 0xffff {
        Some(digits_value(s.subrange(1, 7), 8))
    } else {
        None
    }
}

proof fn lemma_digits_sub(s: Seq<char>, lo: int, mid: int, hi: int, radix: nat)
    requires
        0 <= lo <= mid <= hi <= s.len(),
        all_digits(s.subrange(lo, hi), radix),
    ensures
        all_digits(s.subrange(lo, mid), radix),
        all_digits(s.subrange(mid, hi), radix),
        s.subrange(lo, hi) == s.subrange(lo, mid) + s.subrange(mid, hi),
{
    assert(s.subrange(lo, hi) =~= s.subrange(lo, mid) + s.subrange(mid, hi));
    let x = s.subrange(lo, mid);
    let y = s.subrange(mid, hi);
    let z = s.subrange(lo, hi);
    assert forall|i: int| 0 <= i < x.len() implies digit_value(#[trigger] x[i]) < radix by {
        assert(x[i] == z[i]);
    }
    assert forall|i: int| 0 <= i < y.len() implies digit_value(#[trigger] y[i]) < radix by {
        assert(y[i] == z[i + mid - lo]);
    }
}

/// Every one-byte literal form is read as one byte wide, and decodes to the
/// value it writes, in the low byte.
pub proof fn lemma_one_byte_forms(s: Seq<char>)
    requires
        one_byte_literal(s) is Some,
    ensures
        one_byte_literal(s)->0 <= 255,
        size_of(s) == AddressSize::U8,
        decode_u8(s) == Some(HexPair { lower: one_byte_literal(s)->0 as u8, upper: 0 }),
{
    reveal_with_fuel(power, 9);
    if starts_with(s, '$') && s.len() == 3 && all_digits(s.subrange(1, 3), 16) {
        lemma_digits_bound(s.subrange(1, 3), 16);
    } else if starts_with(s, '%') && s.len() == 9 && all_digits(s.subrange(1, 9), 2) {
        lemma_digits_bound(s.subrange(1, 9), 2);
    } else {
        assert(crate::literal::digit_value(s[0]) < 10);
    }
}

/// Two one-byte literals that write the same value, in whichever forms,
/// decode alike.
pub proof fn lemma_one_byte_forms_agree(a: Seq<char>, b: Seq<char>)
    requires
        one_byte_literal(a) is Some,
        one_byte_literal(a) == one_byte_literal(b),
    ensures
        decode_u8(a) == decode_u8(b),
{
    lemma_one_byte_forms(a);
    lemma_one_byte_forms(b);
}

/// Every two-byte literal form is read as two bytes wide, and its high byte
/// times 256 plus its low byte gives back the value it writes.
pub proof fn lemma_two_byte_split(s: Seq<char>)
    requires
        two_byte_literal(s) is Some,
    ensures
        size_of(s) == AddressSize::U16,
        decode_u16(s) is Some,
        decode_u16(s)->0.upper as nat * 256 + decode_u16(s)->0.lower as nat == two_byte_literal(
            s,
        )->0,
{
    reveal_with_fuel(power, 9);
    if starts_with(s, '$') && s.len() == 5 && all_digits(s.subrange(1, 5), 16) {
        lemma_digits_sub(s, 1, 3, 5, 16);
        lemma_digits_bound(s.subrange(1, 3), 16);
        lemma_digits_bound(s.subrange(3, 5), 16);
        lemma_digits_concat(s.subrange(1, 3), s.subrange(3, 5), 16);
    } else if starts_with(s, '%') && s.len() == 17 && all_digits(s.subrange(1, 17), 2) {
        lemma_digits_sub(s, 1, 9, 17, 2);
        lemma_digits_bound(s.subrange(1, 9), 2);
        lemma_digits_bound(s.subrange(9, 17), 2);
        lemma_digits_concat(s.subrange(1, 9), s.subrange(9, 17), 2);
    } else {
        let v = digits_value(s.subrange(1, 7), 8);
        assert(v / 256 * 256 + v % 256 == v) by (nonlinear_arith);
    }
}

/// A reference to a label after `JMP` or `JSR` renders as exactly two bytes,
/// the address modulo 255 first, for any address below 0xFF00; the text
/// depends on the label's address alone, not on whether the reference stands
/// before or after the label.
pub proof fn lemma_jump_renders_two_bytes(
    out: Seq<char>,
    pc1: u16,
    pc2: u16,
    k: usize,
    addrs: Seq<u16>,
)
    requires
        k < addrs.len(),
        addrs[k as int] < 0xff00,
    ensures
        render_token(out, pc1, ByteToken::LabelRef(k), true, addrs).0 == out + hex2(
            (addrs[k as int] % 255) as u8,
        ) + seq![' '] + hex2((addrs[k as int] / 255) as u8) + seq![' '],
        render_token(out, pc1, ByteToken::LabelRef(k), true, addrs).0 == render_token(
            out,
            pc2,
            ByteToken::LabelRef(k),
            true,
            addrs,
        ).0,
        render_token(out, pc1, ByteToken::LabelRef(k), true, addrs).1 == (pc1 + 2) % 65536,
{
    assert(addrs[k as int] / 255 < 256);
}

/// An operand without indexing, parentheses or `#` is its own address.
proof fn lemma_plain_operand(o: Seq<char>)
    requires
        !starts_with(o, '#'),
        !starts_with(o, '('),
        !ends_with(o, pat_x()),
        !ends_with(o, pat_y()),
        !ends_with(o, pat_close()),
    ensures
        bare_operand(o) == o,
{
    assert(strip_suffix(o, pat_x()) == o);
    assert(strip_suffix(o, pat_y()) == o);
    assert(strip_suffix(o, pat_close()) == o);
    assert(strip_prefix(o, '(') == o);
    assert(strip_prefix(o, '#') == o);
}

/// `JMP` or `JSR` with a label as plain operand encodes as the absolute
/// opcode and one reference to that label, and moves the program counter by
/// three, whether the label is defined before or after the instruction.
pub proof fn lemma_jump_encodes_reference(
    w: Seq<Seq<char>>,
    labels: Seq<LabelView>,
    defines: Seq<DefineView>,
)
    requires
        w.len() == 2,
        mnemonic_index(w[0]) == Some(JMP as nat) || mnemonic_index(w[0]) == Some(JSR as nat),
        find_name(label_names(labels), w[1]) is Some,
        w[1] != accumulator_word(),
        !starts_with(w[1], '#'),
        !starts_with(w[1], '('),
        !ends_with(w[1], pat_x()),
        !ends_with(w[1], pat_y()),
        !ends_with(w[1], pat_close()),
    ensures
        encode_instruction(w, labels, defines) == Ok::<(Seq<ByteToken>, nat), AsmError>(
            (
                seq![
                    ByteToken::Byte(
                        if mnemonic_index(w[0]) == Some(JMP as nat) {
                            0x4c
                        } else {
                            0x20
                        },
                    ),
                    ByteToken::LabelRef(find_name(label_names(labels), w[1])->0 as usize),
                ],
                3,
            ),
        ),
{
    lemma_plain_operand(w[1]);
    let j = find_name(label_names(labels), w[1])->0;
    assert(seq![ByteToken::Byte(if mnemonic_index(w[0]) == Some(JMP as nat) {
        0x4c
    } else {
        0x20
    })] + seq![ByteToken::LabelRef(j as usize)] + Seq::<ByteToken>::empty() =~= seq![
        ByteToken::Byte(
            if mnemonic_index(w[0]) == Some(JMP as nat) {
                0x4c
            } else {
                0x20
            },
        ),
        ByteToken::LabelRef(j as usize),
    ]);
}

/// A branch to a label before it renders the displacement of the wrapping
/// formula, which differs from the target minus the origin minus two.
pub proof fn lemma_backward_branch(out: Seq<char>, pc: u16, k: usize, addrs: Seq<u16>)
    requires
        k < addrs.len(),
        addrs[k as int] < pc,
    ensures
        render_token(out, pc, ByteToken::LabelRef(k), false, addrs).0 == out + hex2(
            ((addrs[k as int] as int - (pc as int - 1) - 2) % 256) as u8,
        ) + seq![' '],
        branch_offset(addrs[k as int], pc) as int == (addrs[k as int] as int - pc as int - 1)
            % 256,
        branch_offset(addrs[k as int], pc) as int != (addrs[k as int] as int - pc as int - 2)
            % 256,
{
    let x = addrs[k as int] as int - pc as int - 1;
    assert(x % 256 != (x - 1) % 256) by (nonlinear_arith);
}

/// A location directive sets the program counter: the statement after it,
/// and every label of that statement, gets the directive's address.
pub proof fn lemma_origin_resets_counter(
    tokens: Seq<TokenLineView>,
    labels: Seq<LabelView>,
    defines: Seq<DefineView>,
    i: nat,
    a: u16,
)
    requires
        i + 1 < tokens.len(),
        tokens[i as int] == TokenLineView::Origin(a),
        encode_prefix(tokens, labels, defines, i) is Ok,
    ensures
        pc_at(tokens, labels, defines, i + 1) == a,
        forall|j: int|
            0 <= j < labels.len() && labels[j].line == i + 1 ==> #[trigger] resolved_labels(
                tokens,
                labels,
                defines,
            )[j].address == a,
{
    reveal(encode_line);
    assert(encode_prefix(tokens, labels, defines, i + 1) == encode_line(
        encode_prefix(tokens, labels, defines, i)->Ok_0,
        tokens[i as int],
        i,
        labels,
        defines,
    ));
}

/// The last `k` digits of `v` in `radix`, most significant first, with
/// upper-case letters: what `format!` writes for `v` zero-padded to `k`
/// digits.
pub open spec fn digits_of(v: nat, radix: nat, k: nat) -> Seq<char>
    decreases k,
{
    if k == 0 {
        Seq::empty()
    } else {
        digits_of(v / radix, radix, (k - 1) as nat).push(hex_chars()[(v % radix) as int])
    }
}

proof fn lemma_hex_char_value(d: nat)
    requires
        d < 16,
    ensures
        digit_value(hex_chars()[d as int]) == d,
{
}

proof fn lemma_digits_of(v: nat, radix: nat, k: nat)
    requires
        2 <= radix <= 16,
    ensures
        digits_of(v, radix, k).len() == k,
        all_digits(digits_of(v, radix, k), radix),
        digits_value(digits_of(v, radix, k), radix) == v % power(radix, k),
    decreases k,
{
    if k == 0 {
        assert(v % 1 == 0) by (nonlinear_arith);
    } else {
        let prev = digits_of(v / radix, radix, (k - 1) as nat);
        let s = digits_of(v, radix, k);
        lemma_digits_of(v / radix, radix, (k - 1) as nat);
        lemma_hex_char_value(v % radix);
        assert(s.drop_last() =~= prev);
        assert forall|i: int| 0 <= i < s.len() implies digit_value(#[trigger] s[i]) < radix by {
            if i < prev.len() {
                assert(s[i] == prev[i]);
            }
        }
        let p = power(radix, (k - 1) as nat);
        lemma_power_positive(radix, (k - 1) as nat);
        vstd::arithmetic::div_mod::lemma_mod_breakdown(v as int, radix as int, p as int);
        assert(((v / radix) % p) * radix == radix * ((v / radix) % p)) by (nonlinear_arith);
    }
}

proof fn lemma_power_positive(b: nat, n: nat)
    requires
        b >= 1,
    ensures
        power(b, n) >= 1,
    decreases n,
{
    if n > 0 {
        lemma_power_positive(b, (n - 1) as nat);
        let p = power(b, (n - 1) as nat);
        assert(b * p >= 1) by (nonlinear_arith)
            requires
                b >= 1,
                p >= 1,
        ;
    }
}

/// The decimal digits of a byte, without leading zeros.
pub open spec fn decimal_of(n: u8) -> Seq<char> {
    digits_of(
        n as nat,
        10,
        if n < 10 {
            1
        } else if n < 100 {
            2
        } else {
            3
        },
    )
}

/// Every byte, written as `$` and two hex digits, as `%` and eight binary
/// digits, as `0` and three octal digits, or in decimal, decodes to itself
/// in the low byte; the three prefixed forms are one byte wide.
pub proof fn lemma_byte_literals(n: u8)
    ensures
        decode_u8(seq!['$'] + digits_of(n as nat, 16, 2)) == Some(HexPair { lower: n, upper: 0 }),
        decode_u8(seq!['%'] + digits_of(n as nat, 2, 8)) == Some(HexPair { lower: n, upper: 0 }),
        decode_u8(seq!['0'] + digits_of(n as nat, 8, 3)) == Some(HexPair { lower: n, upper: 0 }),
        decode_u8(decimal_of(n)) == Some(HexPair { lower: n, upper: 0 }),
        size_of(seq!['$'] + digits_of(n as nat, 16, 2)) == AddressSize::U8,
        size_of(seq!['%'] + digits_of(n as nat, 2, 8)) == AddressSize::U8,
        size_of(seq!['0'] + digits_of(n as nat, 8, 3)) == AddressSize::U8,
{
    reveal_with_fuel(power, 9);
    let v = n as nat;
    lemma_digits_of(v, 16, 2);
    lemma_digits_of(v, 2, 8);
    lemma_digits_of(v, 8, 3);
    let h = seq!['$'] + digits_of(v, 16, 2);
    let b = seq!['%'] + digits_of(v, 2, 8);
    let o = seq!['0'] + digits_of(v, 8, 3);
    assert(h.subrange(1, 3) =~= digits_of(v, 16, 2));
    assert(b.subrange(1, 9) =~= digits_of(v, 2, 8));
    assert(o.subrange(1, 4) =~= digits_of(v, 8, 3));
    vstd::arithmetic::div_mod::lemma_small_mod(v, 256);
    vstd::arithmetic::div_mod::lemma_small_mod(v, 512);
    let k: nat = if n < 10 {
        1
    } else if n < 100 {
        2
    } else {
        3
    };
    lemma_digits_of(v, 10, k);
    let d = decimal_of(n);
    vstd::arithmetic::div_mod::lemma_small_mod(v, power(10, k));
    assert(digit_value(d[0]) < 10);
    assert(digit_value('$') == 16 && digit_value('%') == 16);
}

/// Every 16-bit value, written as `$` and four hex digits, as `%` and
/// sixteen binary digits, or as `0` and six octal digits, is two bytes wide
/// and decodes to a pair whose high byte times 256 plus its low byte gives
/// it back.
pub proof fn lemma_word_literals(a: u16)
    ensures
        ({
            let s = seq!['$'] + digits_of(a as nat, 16, 4);
            &&& size_of(s) == AddressSize::U16
            &&& decode_u16(s) is Some
            &&& decode_u16(s)->0.upper as nat * 256 + decode_u16(s)->0.lower as nat == a as nat
        }),
        ({
            let s = seq!['%'] + digits_of(a as nat, 2, 16);
            &&& size_of(s) == AddressSize::U16
            &&& decode_u16(s) is Some
            &&& decode_u16(s)->0.upper as nat * 256 + decode_u16(s)->0.lower as nat == a as nat
        }),
        ({
            let s = seq!['0'] + digits_of(a as nat, 8, 6);
            &&& size_of(s) == AddressSize::U16
            &&& decode_u16(s) is Some
            &&& decode_u16(s)->0.upper as nat * 256 + decode_u16(s)->0.lower as nat == a as nat
        }),
{
    reveal_with_fuel(power, 17);
    let v = a as nat;
    vstd::arithmetic::div_mod::lemma_small_mod(v, 65536);
    vstd::arithmetic::div_mod::lemma_small_mod(v, 262144);
    lemma_digits_of(v, 16, 4);
    lemma_digits_of(v, 2, 16);
    lemma_digits_of(v, 8, 6);
    let h = seq!['$'] + digits_of(v, 16, 4);
    let b = seq!['%'] + digits_of(v, 2, 16);
    let o = seq!['0'] + digits_of(v, 8, 6);
    assert(h.subrange(1, 5) =~= digits_of(v, 16, 4));
    assert(b.subrange(1, 17) =~= digits_of(v, 2, 16));
    assert(o.subrange(1, 7) =~= digits_of(v, 8, 6));
    assert(two_byte_literal(h) == Some(v));
    assert(two_byte_literal(b) == Some(v));
    assert(two_byte_literal(o) == Some(v));
    lemma_two_byte_split(h);
    lemma_two_byte_split(b);
    lemma_two_byte_split(o);
}

proof fn lemma_prefix_ok(
    tokens: Seq<TokenLineView>,
    labels: Seq<LabelView>,
    defines: Seq<DefineView>,
    j: nat,
    i: nat,
)
    requires
        j <= i <= tokens.len(),
        encode_prefix(tokens, labels, defines, i) is Ok,
    ensures
        encode_prefix(tokens, labels, defines, j) is Ok,
{
    if encode_prefix(tokens, labels, defines, j) is Err {
        lemma_encode_err(tokens, labels, defines, j, i);
    }
}

/// A statement whose first word is no mnemonic, reached by the second pass,
/// makes the whole pass fail with `UnknownOpcode`, so nothing is rendered.
pub proof fn lemma_unknown_mnemonic_fails(
    tokens: Seq<TokenLineView>,
    labels: Seq<LabelView>,
    defines: Seq<DefineView>,
    i: nat,
)
    requires
        i < tokens.len(),
        tokens[i as int] matches TokenLineView::Instruction(w) && (w.len() == 0 || mnemonic_index(
            w[0],
        ) is None),
        encode_prefix(tokens, labels, defines, i) is Ok,
    ensures
        encode(tokens, labels, defines) == Err::<(EncState, Seq<LabelView>), AsmError>(
            AsmError::UnknownOpcode,
        ),
{
    reveal(encode_line);
    assert(encode_prefix(tokens, labels, defines, i + 1) == Err::<EncState, AsmError>(
        AsmError::UnknownOpcode,
    ));
    lemma_encode_err(tokens, labels, defines, i + 1, tokens.len());
}

/// When the second pass succeeds, every statement other than a location
/// directive starts with one of the 56 mnemonics.
pub proof fn lemma_encoded_mnemonics_known(
    tokens: Seq<TokenLineView>,
    labels: Seq<LabelView>,
    defines: Seq<DefineView>,
)
    requires
        encode(tokens, labels, defines) is Ok,
    ensures
        forall|i: int|
            0 <= i < tokens.len() ==> (#[trigger] tokens[i] matches TokenLineView::Instruction(w)
                ==> w.len() > 0 && mnemonic_index(w[0]) is Some),
{
    assert forall|i: int| 0 <= i < tokens.len() implies (#[trigger] tokens[i] matches TokenLineView::Instruction(w)
        ==> w.len() > 0 && mnemonic_index(w[0]) is Some) by {
        lemma_prefix_ok(tokens, labels, defines, i as nat, tokens.len());
        if let TokenLineView::Instruction(w) = tokens[i] {
            if w.len() == 0 || mnemonic_index(w[0]) is None {
                lemma_unknown_mnemonic_fails(tokens, labels, defines, i as nat);
            }
        }
    }
}

/// By how much a statement moves the program counter, when it encodes.
pub open spec fn statement_size(
    t: TokenLineView,
    labels: Seq<LabelView>,
    defines: Seq<DefineView>,
) -> nat {
    match t {
        TokenLineView::Instruction(w) => match encode_instruction(w, labels, defines) {
            Ok((_, n)) => n,
            Err(_) => 0,
        },
        TokenLineView::Origin(_) => 0,
    }
}

/// The summed sizes of statements `lo` up to, not including, `hi`.
pub open spec fn span_size(
    tokens: Seq<TokenLineView>,
    labels: Seq<LabelView>,
    defines: Seq<DefineView>,
    lo: nat,
    hi: nat,
) -> nat
    decreases hi,
{
    if hi <= lo || hi > tokens.len() {
        0
    } else {
        span_size(tokens, labels, defines, lo, (hi - 1) as nat) + statement_size(
            tokens[hi - 1],
            labels,
            defines,
        )
    }
}

/// After a location directive at statement `d` with address `v`, and up to
/// the next directive, the program counter at statement `i` is `v` plus the
/// sizes of the statements in between, modulo 65536.
pub proof fn lemma_counter_after_origin(
    tokens: Seq<TokenLineView>,
    labels: Seq<LabelView>,
    defines: Seq<DefineView>,
    d: nat,
    v: u16,
    i: nat,
)
    requires
        d < i <= tokens.len(),
        tokens[d as int] == TokenLineView::Origin(v),
        forall|m: int| d < m < i ==> #[trigger] tokens[m] is Instruction,
        encode_prefix(tokens, labels, defines, i) is Ok,
    ensures
        pc_at(tokens, labels, defines, i) as nat == (v as nat + span_size(
            tokens,
            labels,
            defines,
            d + 1,
            i,
        )) % 65536,
    decreases i,
{
    reveal(encode_line);
    lemma_prefix_ok(tokens, labels, defines, (i - 1) as nat, i);
    if i == d + 1 {
        vstd::arithmetic::div_mod::lemma_small_mod(v as nat, 65536);
    } else {
        lemma_counter_after_origin(tokens, labels, defines, d, v, (i - 1) as nat);
        let s = span_size(tokens, labels, defines, d + 1, (i - 1) as nat);
        let n = statement_size(tokens[i - 1], labels, defines);
        vstd::arithmetic::div_mod::lemma_add_mod_noop(v as int + s as int, n as int, 65536);
        vstd::arithmetic::div_mod::lemma_small_mod(n as nat, 65536);
    }
}

/// Every label of a statement after a location directive, up to the next
/// directive, gets the directive's address plus the sizes of the statements
/// in between; the label right after the directive gets the address itself.
pub proof fn lemma_labels_after_origin(
    tokens: Seq<TokenLineView>,
    labels: Seq<LabelView>,
    defines: Seq<DefineView>,
    d: nat,
    v: u16,
    j: int,
)
    requires
        d < tokens.len(),
        tokens[d as int] == TokenLineView::Origin(v),
        0 <= j < labels.len(),
        d < labels[j].line < tokens.len(),
        forall|m: int| d < m < labels[j].line ==> #[trigger] tokens[m] is Instruction,
        encode(tokens, labels, defines) is Ok,
    ensures
        resolved_labels(tokens, labels, defines)[j].address as nat == (v as nat + span_size(
            tokens,
            labels,
            defines,
            d + 1,
            labels[j].line,
        )) % 65536,
        labels[j].line == d + 1 ==> resolved_labels(tokens, labels, defines)[j].address == v,
{
    lemma_prefix_ok(tokens, labels, defines, labels[j].line, tokens.len());
    lemma_counter_after_origin(tokens, labels, defines, d, v, labels[j].line);
    if labels[j].line == d + 1 {
        vstd::arithmetic::div_mod::lemma_small_mod(v as nat, 65536);
    }
}

/// A `JMP` or `JSR` statement with a label reference renders as its opcode
/// and exactly two address bytes, low first, each followed by a space; the
/// text depends on the label's address alone, not on the byte counter, and
/// the counter moves by three.
pub proof fn lemma_jump_line(
    out: Seq<char>,
    pc: u16,
    op: u8,
    k: usize,
    info: Seq<char>,
    addrs: Seq<u16>,
)
    requires
        op == 0x4c || op == 0x6c || op == 0x20,
        k < addrs.len(),
        addrs[k as int] < 0xff00,
    ensures
        render_line(
            out,
            pc,
            seq![ByteToken::Byte(op), ByteToken::LabelRef(k)],
            info,
            false,
            addrs,
        ) == (
            out + hex2(op) + seq![' '] + hex2((addrs[k as int] % 255) as u8) + seq![' '] + hex2(
                (addrs[k as int] / 255) as u8,
            ) + seq![' '],
            ((pc + 3) % 65536) as u16,
        ),
{
    let line = seq![ByteToken::Byte(op), ByteToken::LabelRef(k)];
    assert(is_jump(line));
    assert(line.drop_last() =~= seq![ByteToken::Byte(op)]);
    assert(seq![ByteToken::Byte(op)].drop_last() =~= Seq::<ByteToken>::empty());
    reveal_with_fuel(render_tokens, 3);
    assert(addrs[k as int] / 255 < 256);
    let text = out + hex2(op) + seq![' '] + hex2((addrs[k as int] % 255) as u8) + seq![' ']
        + hex2((addrs[k as int] / 255) as u8) + seq![' '];
    assert(text.last() == ' ');
}

/// A branch statement (any first byte but the three jumps) with a label
/// reference renders its opcode and one displacement byte: for a label
/// before the displacement byte, the wrapping formula, taken at the counter
/// of that byte.
pub proof fn lemma_branch_line(
    out: Seq<char>,
    pc: u16,
    op: u8,
    k: usize,
    info: Seq<char>,
    addrs: Seq<u16>,
)
    requires
        op != 0x4c && op != 0x6c && op != 0x20,
        k < addrs.len(),
        addrs[k as int] < (pc + 1) % 65536,
    ensures
        render_line(
            out,
            pc,
            seq![ByteToken::Byte(op), ByteToken::LabelRef(k)],
            info,
            false,
            addrs,
        ) == (
            out + hex2(op) + seq![' '] + hex2(
                ((addrs[k as int] as int - (((pc + 1) % 65536) - 1) - 2) % 256) as u8,
            ) + seq![' '],
            ((pc + 2) % 65536) as u16,
        ),
{
    let line = seq![ByteToken::Byte(op), ByteToken::LabelRef(k)];
    assert(!is_jump(line));
    assert(line.drop_last() =~= seq![ByteToken::Byte(op)]);
    assert(seq![ByteToken::Byte(op)].drop_last() =~= Seq::<ByteToken>::empty());
    reveal_with_fuel(render_tokens, 3);
    let o = ((pc + 1) % 65536) as u16;
    let text = out + hex2(op) + seq![' '] + hex2(branch_offset(addrs[k as int], o)) + seq![' '];
    assert(text.last() == ' ');
}

} // verus!
