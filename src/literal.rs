//! Numeric literals: `$` hexadecimal, `%` binary, a leading `0` for octal,
//! and plain decimal.

use vstd::prelude::*;

verus! {

/// How many bytes a numeric operand takes.
#[derive(Clone, Copy, Debug, PartialEq, Eq, Structural)]
pub enum AddressSize {
    /// One byte.
    U8,
    /// Two bytes.
    U16,
    /// The form of the literal gives no width.
    Unknown,
}

/// A two-byte value as its low and high byte.
#[derive(Clone, Copy, Debug, PartialEq, Eq, Structural)]
pub struct HexPair {
    /// The least significant byte.
    pub lower: u8,
    /// The most significant byte.
    pub upper: u8,
}

/// The value of a digit character (both letter cases), or 16 for a
/// character that is a digit in no radix up to sixteen.
pub open spec fn digit_value(c: char) -> nat {
    let u = c as u32;
    if 48 <= u && u <= 57 {
        (u - 48) as nat
    } else if 65 <= u && u <= 70 {
        (u - 55) as nat
    } else if 97 <= u && u <= 102 {
        (u - 87) as nat
    } else {
        16
    }
}

/// Every character of `s` is a digit of `radix`.
pub open spec fn all_digits(s: Seq<char>, radix: nat) -> bool {
    forall|i: int| 0 <= i < s.len() ==> digit_value(#[trigger] s[i]) < radix
}

/// The number that the digits of `s` write in `radix`, most significant first.
pub open spec fn digits_value(s: Seq<char>, radix: nat) -> nat
    decreases s.len(),
{
    if s.len() == 0 {
        0
    } else {
        digits_value(s.drop_last(), radix) * radix + digit_value(s.last())
    }
}

/// The number written by `s[lo..hi]` in `radix`, if all of them are digits.
pub open spec fn field_value(s: Seq<char>, lo: int, hi: int, radix: nat) -> Option<nat> {
    if all_digits(s.subrange(lo, hi), radix) {
        Some(digits_value(s.subrange(lo, hi), radix))
    } else {
        None
    }
}

/// `s` starts with the character `c`.
pub open spec fn starts_with(s: Seq<char>, c: char) -> bool {
    s.len() > 0 && s[0] == c
}

/// `s` is a non-empty run of decimal digits.
pub open spec fn is_decimal(s: Seq<char>) -> bool {
    s.len() > 0 && all_digits(s, 10)
}

/// The width that the form of a literal gives it.
pub open spec fn size_of(s: Seq<char>) -> AddressSize {
    if starts_with(s, '$') {
        if s.len() == 3 {
            AddressSize::U8
        } else if s.len() == 5 {
            AddressSize::U16
        } else {
            AddressSize::Unknown
        }
    } else if starts_with(s, '%') {
        if s.len() == 9 {
            AddressSize::U8
        } else if s.len() == 17 {
            AddressSize::U16
        } else {
            AddressSize::Unknown
        }
    } else if starts_with(s, '0') {
        if s.len() == 4 {
            AddressSize::U8
        } else if s.len() == 7 {
            AddressSize::U16
        } else {
            AddressSize::Unknown
        }
    } else if is_decimal(s) {
        if digits_value(s, 10) <= 255 {
            AddressSize::U8
        } else {
            AddressSize::U16
        }
    } else {
        AddressSize::Unknown
    }
}

/// A one-byte value in the low byte of a pair.
pub open spec fn low_only(v: nat) -> HexPair {
    HexPair { lower: v as u8, upper: 0 }
}

/// A field's value as a single byte, if it has one.
pub open spec fn byte_field(f: Option<nat>) -> Option<HexPair> {
    match f {
        Some(v) => if v <= 255 {
            Some(low_only(v))
        } else {
            None
        },
        None => None,
    }
}

/// The one-byte reading of a literal.
pub open spec fn decode_u8(s: Seq<char>) -> Option<HexPair> {
    if starts_with(s, '$') && s.len() == 3 {
        byte_field(field_value(s, 1, 3, 16))
    } else if starts_with(s, '%') && s.len() == 9 {
        byte_field(field_value(s, 1, 9, 2))
    } else if starts_with(s, '0') && s.len() == 4 {
        byte_field(field_value(s, 1, 4, 8))
    } else if is_decimal(s) {
        byte_field(Some(digits_value(s, 10)))
    } else {
        None
    }
}

/// Two bytes given as high and low half.
pub open spec fn halves(hi: Option<nat>, lo: Option<nat>) -> Option<HexPair> {
    match (hi, lo) {
        (Some(h), Some(l)) => Some(HexPair { lower: l as u8, upper: h as u8 }),
        _ => None,
    }
}

/// A 16-bit value split into its bytes, if it fits.
pub open spec fn word_pair(f: Option<nat>) -> Option<HexPair> {
    match f {
        Some(v) => if v <= 0xffff {
            Some(HexPair { lower: (v % 256) as u8, upper: (v / 256) as u8 })
        } else {
            None
        },
        None => None,
    }
}

/// The two-byte reading of a literal. A decimal literal is split by sixteen,
/// not by 256, and its high part keeps only its low eight bits.
pub open spec fn decode_u16(s: Seq<char>) -> Option<HexPair> {
    if starts_with(s, '$') && s.len() == 5 {
        halves(field_value(s, 1, 3, 16), field_value(s, 3, 5, 16))
    } else if starts_with(s, '%') && s.len() == 17 {
        halves(field_value(s, 1, 9, 2), field_value(s, 9, 17, 2))
    } else if starts_with(s, '0') && s.len() == 7 {
        word_pair(field_value(s, 1, 7, 8))
    } else if is_decimal(s) {
        let v = digits_value(s, 10);
        Some(HexPair { lower: (v % 16) as u8, upper: ((v / 16) % 256) as u8 })
    } else {
        None
    }
}

/// The reading of a literal at the width its own form gives.
pub open spec fn decode_at_size(s: Seq<char>) -> Option<(AddressSize, HexPair)> {
    match size_of(s) {
        AddressSize::U8 => match decode_u8(s) {
            Some(p) => Some((AddressSize::U8, p)),
            None => None,
        },
        AddressSize::U16 => match decode_u16(s) {
            Some(p) => Some((AddressSize::U16, p)),
            None => None,
        },
        AddressSize::Unknown => None,
    }
}

/// `b` to the power `n`.
pub open spec fn power(b: nat, n: nat) -> nat
    decreases n,
{
    if n == 0 {
        1
    } else {
        b * power(b, (n - 1) as nat)
    }
}

proof fn lemma_power_mono(a: nat, b: nat, m: nat, n: nat)
    requires
        1 <= a <= b,
        m <= n,
    ensures
        power(a, m) <= power(b, n),
        power(a, m) >= 1,
    decreases n,
{
    if n > 0 {
        if m == n {
            lemma_power_mono(a, b, (m - 1) as nat, (n - 1) as nat);
            let x = power(a, (m - 1) as nat);
            let y = power(b, (n - 1) as nat);
            assert(a * x <= b * y && a * x >= 1) by (nonlinear_arith)
                requires
                    1 <= a <= b,
                    1 <= x <= y,
            ;
        } else {
            lemma_power_mono(a, b, m, (n - 1) as nat);
            let y = power(b, (n - 1) as nat);
            assert(y <= b * y) by (nonlinear_arith)
                requires
                    1 <= b,
                    1 <= y,
            ;
        }
    }
}

/// The value of one digit character.
fn digit_of(c: char) -> (r: u32)
    ensures
        r as nat == digit_value(c),
{
    let u = c as u32;
    if 48 <= u && u <= 57 {
        u - 48
    } else if 65 <= u && u <= 70 {
        u - 55
    } else if 97 <= u && u <= 102 {
        u - 87
    } else {
        16
    }
}

/// Reads `s[lo..hi]` as digits of `radix`; `None` when one is not a digit.
pub(crate) fn parse_field(s: &[char], lo: usize, hi: usize, radix: u32) -> (r: Option<u32>)
    requires
        lo <= hi <= s@.len(),
        hi - lo <= 8,
        2 <= radix <= 16,
    ensures
        r is Some <==> field_value(s@, lo as int, hi as int, radix as nat) is Some,
        r is Some ==> r->0 as nat == field_value(s@, lo as int, hi as int, radix as nat)->0,
        r is Some ==> r->0 < power(radix as nat, (hi - lo) as nat),
{
    let mut acc: u64 = 0;
    let mut i: usize = lo;
    proof {
        reveal_with_fuel(power, 9);
    }
    while i < hi
        invariant
            lo <= i <= hi <= s@.len(),
            hi - lo <= 8,
            2 <= radix <= 16,
            all_digits(s@.subrange(lo as int, i as int), radix as nat),
            acc as nat == digits_value(s@.subrange(lo as int, i as int), radix as nat),
            acc < power(radix as nat, (i - lo) as nat),
            power(16, 8) == 0x1_0000_0000,
        decreases hi - i,
    {
        let d = digit_of(s[i]);
        let ghost prev = s@.subrange(lo as int, i as int);
        let ghost next = s@.subrange(lo as int, i + 1);
        assert(next.drop_last() =~= prev);
        if d >= radix {
            assert(next[i - lo] == s@[i as int]);
            assert(!all_digits(s@.subrange(lo as int, hi as int), radix as nat)) by {
                assert(s@.subrange(lo as int, hi as int)[i - lo] == s@[i as int]);
            }
            return None;
        }
        proof {
            lemma_power_mono(radix as nat, 16, (i + 1 - lo) as nat, 8);
            let p = power(radix as nat, (i - lo) as nat);
            assert(acc * radix + d < radix * p) by (nonlinear_arith)
                requires
                    acc < p,
                    d < radix,
            ;
        }
        acc = acc * (radix as u64) + (d as u64);
        i = i + 1;
        assert(all_digits(next, radix as nat)) by {
            assert forall|k: int| 0 <= k < next.len() implies digit_value(#[trigger] next[k])
                < radix as nat by {
                if k < prev.len() {
                    assert(next[k] == prev[k]);
                }
            }
        }
    }
    assert(s@.subrange(lo as int, i as int) =~= s@.subrange(lo as int, hi as int));
    proof {
        lemma_power_mono(radix as nat, 16, (hi - lo) as nat, 8);
    }
    Some(acc as u32)
}

/// The value of a run of decimal digits, held at 256 when it is larger.
fn decimal_capped(s: &[char]) -> (r: u32)
    requires
        all_digits(s@, 10),
    ensures
        r as nat == if digits_value(s@, 10) <= 256 {
            digits_value(s@, 10)
        } else {
            256
        },
{
    let mut acc: u32 = 0;
    let mut i: usize = 0;
    while i < s.len()
        invariant
            i <= s@.len(),
            all_digits(s@, 10),
            acc as nat == if digits_value(s@.subrange(0, i as int), 10) <= 256 {
                digits_value(s@.subrange(0, i as int), 10)
            } else {
                256
            },
        decreases s@.len() - i,
    {
        let d = digit_of(s[i]);
        let ghost prev = s@.subrange(0, i as int);
        let ghost next = s@.subrange(0, i + 1);
        assert(next.drop_last() =~= prev);
        assert(next.last() == s@[i as int]);
        assert(d < 10);
        proof {
            let v = digits_value(prev, 10);
            if v > 256 {
                assert(v * 10 + d > 256) by (nonlinear_arith)
                    requires
                        v > 256,
                ;
            }
        }
        if acc >= 256 {
            acc = 256;
        } else {
            acc = acc * 10 + d;
            if acc > 256 {
                acc = 256;
            }
        }
        i = i + 1;
    }
    assert(s@.subrange(0, s@.len() as int) =~= s@);
    acc
}

/// The value of a run of decimal digits, modulo 4096.
fn decimal_low12(s: &[char]) -> (r: u32)
    requires
        all_digits(s@, 10),
    ensures
        r as nat == digits_value(s@, 10) % 4096,
{
    let mut acc: u32 = 0;
    let mut i: usize = 0;
    while i < s.len()
        invariant
            i <= s@.len(),
            all_digits(s@, 10),
            acc as nat == digits_value(s@.subrange(0, i as int), 10) % 4096,
        decreases s@.len() - i,
    {
        let d = digit_of(s[i]);
        let ghost prev = s@.subrange(0, i as int);
        let ghost next = s@.subrange(0, i + 1);
        assert(next.drop_last() =~= prev);
        assert(next.last() == s@[i as int]);
        assert(d < 10);
        proof {
            let v = digits_value(prev, 10) as int;
            vstd::arithmetic::div_mod::lemma_mul_mod_noop_left(v, 10, 4096);
            vstd::arithmetic::div_mod::lemma_add_mod_noop(v * 10, d as int, 4096);
            vstd::arithmetic::div_mod::lemma_add_mod_noop((v % 4096) * 10, d as int, 4096);
            vstd::arithmetic::div_mod::lemma_mul_mod_noop_left(v % 4096, 10, 4096);
            vstd::arithmetic::div_mod::lemma_small_mod(d as nat, 4096);
        }
        acc = (acc * 10 + d) % 4096;
        i = i + 1;
    }
    assert(s@.subrange(0, s@.len() as int) =~= s@);
    acc
}

/// Checks that every character of `s` is a decimal digit.
fn check_decimal(s: &[char]) -> (r: bool)
    ensures
        r == is_decimal(s@),
{
    if s.len() == 0 {
        return false;
    }
    let mut i: usize = 0;
    while i < s.len()
        invariant
            i <= s@.len(),
            forall|k: int| 0 <= k < i ==> digit_value(#[trigger] s@[k]) < 10,
        decreases s@.len() - i,
    {
        if digit_of(s[i]) >= 10 {
            return false;
        }
        i = i + 1;
    }
    true
}

/// The width of a literal, from its prefix and its length.
pub fn address_size(num: &[char]) -> (r: AddressSize)
    ensures
        r == size_of(num@),
{
    let n = num.len();
    if n > 0 && num[0] == '$' {
        if n == 3 {
            AddressSize::U8
        } else if n == 5 {
            AddressSize::U16
        } else {
            AddressSize::Unknown
        }
    } else if n > 0 && num[0] == '%' {
        if n == 9 {
            AddressSize::U8
        } else if n == 17 {
            AddressSize::U16
        } else {
            AddressSize::Unknown
        }
    } else if n > 0 && num[0] == '0' {
        if n == 4 {
            AddressSize::U8
        } else if n == 7 {
            AddressSize::U16
        } else {
            AddressSize::Unknown
        }
    } else if check_decimal(num) {
        if decimal_capped(num) <= 255 {
            AddressSize::U8
        } else {
            AddressSize::U16
        }
    } else {
        AddressSize::Unknown
    }
}

fn one_byte(f: Option<u32>, Ghost(g): Ghost<Option<nat>>) -> (r: Option<HexPair>)
    requires
        f is Some <==> g is Some,
        f is Some ==> f->0 as nat == g->0,
    ensures
        r == byte_field(g),
{
    match f {
        Some(v) => if v <= 255 {
            Some(HexPair { lower: v as u8, upper: 0 })
        } else {
            None
        },
        None => None,
    }
}

/// Decodes a one-byte literal into the low byte of a pair.
pub fn u8_decode(num: &[char]) -> (r: Option<HexPair>)
    ensures
        r == decode_u8(num@),
{
    let n = num.len();
    proof {
        reveal_with_fuel(power, 9);
    }
    if n > 0 && num[0] == '$' && n == 3 {
        one_byte(parse_field(num, 1, 3, 16), Ghost(field_value(num@, 1, 3, 16)))
    } else if n > 0 && num[0] == '%' && n == 9 {
        one_byte(parse_field(num, 1, 9, 2), Ghost(field_value(num@, 1, 9, 2)))
    } else if n > 0 && num[0] == '0' && n == 4 {
        one_byte(parse_field(num, 1, 4, 8), Ghost(field_value(num@, 1, 4, 8)))
    } else if check_decimal(num) {
        let v = decimal_capped(num);
        if v <= 255 {
            Some(HexPair { lower: v as u8, upper: 0 })
        } else {
            None
        }
    } else {
        None
    }
}

/// Decodes a two-byte literal into its low and high byte.
pub fn u16_decode(num: &[char]) -> (r: Option<HexPair>)
    ensures
        r == decode_u16(num@),
{
    let n = num.len();
    proof {
        reveal_with_fuel(power, 9);
    }
    if n > 0 && num[0] == '$' && n == 5 {
        let hi = parse_field(num, 1, 3, 16);
        let lo = parse_field(num, 3, 5, 16);
        match (hi, lo) {
            (Some(h), Some(l)) => Some(HexPair { lower: l as u8, upper: h as u8 }),
            _ => None,
        }
    } else if n > 0 && num[0] == '%' && n == 17 {
        let hi = parse_field(num, 1, 9, 2);
        let lo = parse_field(num, 9, 17, 2);
        match (hi, lo) {
            (Some(h), Some(l)) => Some(HexPair { lower: l as u8, upper: h as u8 }),
            _ => None,
        }
    } else if n > 0 && num[0] == '0' && n == 7 {
        match parse_field(num, 1, 7, 8) {
            Some(v) => if v <= 0xffff {
                Some(HexPair { lower: (v % 256) as u8, upper: (v / 256) as u8 })
            } else {
                None
            },
            None => None,
        }
    } else if check_decimal(num) {
        let v = decimal_low12(num);
        proof {
            let w = digits_value(num@, 10);
            vstd::arithmetic::div_mod::lemma_mod_mod(w as int, 16, 256);
            assert(w % 16 == (w % 4096) % 16 && (w / 16) % 256 == (w % 4096) / 16) by (nonlinear_arith);
        }
        Some(HexPair { lower: (v % 16) as u8, upper: (v / 16) as u8 })
    } else {
        None
    }
}

/// Decodes a literal at the width its own form gives; `None` when the form
/// gives no width or the digits do not fit it.
pub fn decode_sized(num: &[char]) -> (r: Option<(AddressSize, HexPair)>)
    ensures
        r == decode_at_size(num@),
{
    match address_size(num) {
        AddressSize::U8 => match u8_decode(num) {
            Some(p) => Some((AddressSize::U8, p)),
            None => None,
        },
        AddressSize::U16 => match u16_decode(num) {
            Some(p) => Some((AddressSize::U16, p)),
            None => None,
        },
        AddressSize::Unknown => None,
    }
}

/// A number written with digits of `radix` is below `radix` to the power
/// of their count.
pub proof fn lemma_digits_bound(s: Seq<char>, radix: nat)
    requires
        all_digits(s, radix),
        radix >= 1,
    ensures
        digits_value(s, radix) < power(radix, s.len()),
    decreases s.len(),
{
    if s.len() > 0 {
        let t = s.drop_last();
        assert(all_digits(t, radix)) by {
            assert forall|i: int| 0 <= i < t.len() implies digit_value(#[trigger] t[i]) < radix by {
                assert(t[i] == s[i]);
            }
        }
        lemma_digits_bound(t, radix);
        let v = digits_value(t, radix);
        let p = power(radix, t.len());
        let d = digit_value(s.last());
        assert(d < radix);
        assert(v * radix + d < radix * p) by (nonlinear_arith)
            requires
                v < p,
                d < radix,
        ;
    }
}

/// The digits of `a` followed by those of `b` write the value of `a`
/// shifted by the length of `b`, plus the value of `b`.
pub proof fn lemma_digits_concat(a: Seq<char>, b: Seq<char>, radix: nat)
    ensures
        digits_value(a + b, radix) == digits_value(a, radix) * power(radix, b.len())
            + digits_value(b, radix),
    decreases b.len(),
{
    if b.len() == 0 {
        assert(a + b =~= a);
        assert(power(radix, 0) == 1);
        assert(digits_value(b, radix) == 0);
        assert(digits_value(a, radix) * 1 == digits_value(a, radix));
    } else {
        let b1 = b.drop_last();
        assert((a + b).drop_last() =~= a + b1);
        assert((a + b).last() == b.last());
        lemma_digits_concat(a, b1, radix);
        let va = digits_value(a, radix);
        let p = power(radix, b1.len());
        let vb = digits_value(b1, radix);
        let d = digit_value(b.last());
        assert(digits_value(a + b, radix) == digits_value(a + b1, radix) * radix + d);
        assert(digits_value(b, radix) == vb * radix + d);
        assert(power(radix, b.len()) == radix * p);
        assert((va * p + vb) * radix + d == va * (radix * p) + (vb * radix + d)) by (nonlinear_arith);
        assert(digits_value(a + b1, radix) == va * p + vb);
    }
}

} // verus!
