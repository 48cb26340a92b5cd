//! Fixed-width machine numbers: 24-bit values and 20-bit addresses, with
//! wraparound, sign interpretation and text parsing of literals.

use vstd::prelude::*;
use crate::text::chars_of;

verus! {

/// Number of bytes of one machine word in a binary image.
pub const VALUE_BYTES: u8 = 3;

/// Width of an address in bits.
pub const ADDRESS_BITS: u8 = 20;

/// Width of a value in bits.
pub const VALUE_BITS: u8 = 24;

/// Number of distinct addresses.
pub const ADDRESS_SPACE: u32 = 0x10_0000;

/// Number of distinct values.
pub const VALUE_SPACE: u32 = 0x100_0000;

/// The largest address; also the mask that wraps a number into the address space.
pub const MAX_ADDRESS: MimaAddress = 0xF_FFFF;

/// The largest value; also the mask that wraps a number into the value space.
pub const MAX_VALUE: MimaValue = 0xFF_FFFF;

pub type MimaValue = u32;

pub type MimaAddress = u32;

/// `n` wrapped into the value space.
pub open spec fn wrap_value(n: int) -> int {
    n % 0x100_0000
}

/// `n` wrapped into the address space.
pub open spec fn wrap_address(n: int) -> int {
    n % 0x10_0000
}

/// The sign bit (bit 23) of `n`.
pub open spec fn sign_bit(n: u32) -> int {
    (n as int / 0x80_0000) % 2
}

/// Wraps `num` into the value space.
pub fn coerce_mima_value(num: MimaValue) -> (r: MimaValue)
    ensures
        r == wrap_value(num as int),
{
    assert(num & 0xFF_FFFF == num % 0x100_0000) by (bit_vector);
    num & MAX_VALUE
}

/// Wraps `addr` into the address space.
pub fn coerce_mima_address(addr: MimaAddress) -> (r: MimaAddress)
    ensures
        r == wrap_address(addr as int),
{
    assert(addr & 0xF_FFFF == addr % 0x10_0000) by (bit_vector);
    addr & MAX_ADDRESS
}

/// The sign bit of `num`, as 0 or 1.
pub fn signum(num: MimaValue) -> (r: u8)
    ensures
        r == sign_bit(num),
{
    assert((num >> 23u32) & 1 == (num / 0x80_0000) % 2) by (bit_vector);
    ((num >> 23u32) & 1) as u8
}

/// Whether `num` reads as negative, that is whether its sign bit is set.
pub fn is_negative(num: MimaValue) -> (r: bool)
    ensures
        r == (sign_bit(num) == 1),
{
    signum(num) == 1
}

/// Why a numeric literal was not accepted: it is empty, holds a character
/// that is not a digit of its base, or does not fit in 32 bits.
#[derive(Clone, Copy, Debug, PartialEq, Eq)]
pub struct ParseNumberError;

/// The value of the digit `c` in base `radix` (10 or 16), if it is one.
pub open spec fn digit_value(c: char, radix: nat) -> Option<nat> {
    let u = c as u32;
    if 0x30 <= u <= 0x39 {
        Some((u - 0x30) as nat)
    } else if radix == 16 && 0x61 <= u <= 0x66 {
        Some((u - 0x61 + 10) as nat)
    } else if radix == 16 && 0x41 <= u <= 0x46 {
        Some((u - 0x41 + 10) as nat)
    } else {
        None
    }
}

/// Every character of `s` is a digit of base `radix`.
pub open spec fn all_digits(s: Seq<char>, radix: nat) -> bool {
    forall|i: int| 0 <= i < s.len() ==> (#[trigger] digit_value(s[i], radix)) is Some
}

/// The number that the digits `s` spell in base `radix`, most significant first.
pub open spec fn digits_value(s: Seq<char>, radix: nat) -> nat
    decreases s.len(),
{
    if s.len() == 0 {
        0
    } else {
        digits_value(s.drop_last(), radix) * radix + digit_value(s.last(), radix).unwrap_or(0)
    }
}

/// An unsigned 32-bit number in base `radix`: an optional `+`, then at least
/// one digit, with a value below 2^32.
pub open spec fn parse_unsigned(s: Seq<char>, radix: nat) -> Option<nat> {
    let body = if s.len() > 0 && s[0] == '+' {
        s.drop_first()
    } else {
        s
    };
    if body.len() > 0 && all_digits(body, radix) && digits_value(body, radix) <= u32::MAX {
        Some(digits_value(body, radix))
    } else {
        None
    }
}

/// `s` starts with `0x`.
pub open spec fn has_hex_prefix(s: Seq<char>) -> bool {
    s.len() >= 2 && s[0] == '0' && s[1] == 'x'
}

/// A numeric literal: hexadecimal after a `0x` prefix, decimal otherwise.
pub open spec fn parse_number(s: Seq<char>) -> Option<nat> {
    if has_hex_prefix(s) {
        parse_unsigned(s.skip(2), 16)
    } else {
        parse_unsigned(s, 10)
    }
}

proof fn lemma_digits_monotone(s: Seq<char>, radix: nat, k: int)
    requires
        0 <= k <= s.len(),
        radix >= 1,
    ensures
        digits_value(s.take(k), radix) <= digits_value(s, radix),
    decreases s.len(),
{
    if k < s.len() {
        lemma_digits_monotone(s.drop_last(), radix, k);
        assert(s.drop_last().take(k) =~= s.take(k));
        let d = digits_value(s.drop_last(), radix);
        assert(d <= d * radix) by (nonlinear_arith)
            requires
                radix >= 1,
        ;
    } else {
        assert(s.take(k) =~= s);
    }
}

fn digit_of(c: char, radix: u32) -> (r: Option<u32>)
    requires
        radix == 10 || radix == 16,
    ensures
        r matches Some(d) ==> digit_value(c, radix as nat) == Some(d as nat) && d < radix,
        r is None ==> digit_value(c, radix as nat) is None,
{
    let u = c as u32;
    if 0x30 <= u && u <= 0x39 {
        Some(u - 0x30)
    } else if radix == 16 && 0x61 <= u && u <= 0x66 {
        Some(u - 0x61 + 10)
    } else if radix == 16 && 0x41 <= u && u <= 0x46 {
        Some(u - 0x41 + 10)
    } else {
        None
    }
}

/// Reads the characters of `s` from `start` on as an unsigned 32-bit number
/// in base `radix`.
fn parse_unsigned_from(s: &Vec<char>, start: usize, radix: u32) -> (r: Option<u32>)
    requires
        start <= s.len(),
        radix == 10 || radix == 16,
    ensures
        r matches Some(v) ==> parse_unsigned(s@.skip(start as int), radix as nat) == Some(v as nat),
        r is None ==> parse_unsigned(s@.skip(start as int), radix as nat) is None,
{
    let ghost t = s@.skip(start as int);
    let mut b: usize = start;
    if start < s.len() && s[start] == '+' {
        b = start + 1;
    }
    let ghost body = s@.subrange(b as int, s.len() as int);
    assert(body =~= (if t.len() > 0 && t[0] == '+' { t.drop_first() } else { t }));
    if b >= s.len() {
        return None;
    }
    let mut acc: u64 = 0;
    let mut i: usize = b;
    while i < s.len()
        invariant
            b <= i <= s.len(),
            radix == 10 || radix == 16,
            body == s@.subrange(b as int, s.len() as int),
            body == (if t.len() > 0 && t[0] == '+' { t.drop_first() } else { t }),
            t == s@.skip(start as int),
            body.len() > 0,
            acc <= u32::MAX,
            acc == digits_value(body.take(i - b), radix as nat),
            all_digits(body.take(i - b), radix as nat),
        decreases s.len() - i,
    {
        let ghost pre = body.take(i - b);
        let ghost next = body.take(i - b + 1);
        assert(next.drop_last() =~= pre);
        assert(next.last() == s@[i as int]);
        match digit_of(s[i], radix) {
            None => {
                assert(body[i - b] == s@[i as int]);
                assert(digit_value(body[i - b], radix as nat) is None);
                assert(!all_digits(body, radix as nat));
                return None;
            },
            Some(d) => {
                assert(acc * (radix as u64) + (d as u64) <= 16 * 0xFFFF_FFFFu64 + 16) by (nonlinear_arith)
                    requires
                        acc <= 0xFFFF_FFFFu64,
                        radix <= 16,
                        d < radix,
                ;
                acc = acc * (radix as u64) + (d as u64);
                assert(all_digits(next, radix as nat));
                if acc > u32::MAX as u64 {
                    proof {
                        if all_digits(body, radix as nat) {
                            lemma_digits_monotone(body, radix as nat, i - b + 1);
                        }
                    }
                    return None;
                }
                i = i + 1;
            },
        }
    }
    assert(body.take(i - b) =~= body);
    Some(acc as u32)
}

/// Reads a numeric literal: hexadecimal after a `0x` prefix, decimal otherwise.
pub fn parse_number_chars(s: &Vec<char>) -> (r: Option<u32>)
    ensures
        r matches Some(v) ==> parse_number(s@) == Some(v as nat),
        r is None ==> parse_number(s@) is None,
{
    if s.len() >= 2 && s[0] == '0' && s[1] == 'x' {
        parse_unsigned_from(s, 2, 16)
    } else {
        assert(s@.skip(0) =~= s@);
        parse_unsigned_from(s, 0, 10)
    }
}

/// Reads an address literal, wrapped into the address space.
pub fn parse_mima_addr(s: &str) -> (r: Result<MimaAddress, ParseNumberError>)
    ensures
        r matches Ok(a) ==> parse_number(s@) matches Some(n) && a == wrap_address(n as int),
        r is Err ==> parse_number(s@) is None,
{
    let cs = chars_of(s);
    match parse_number_chars(&cs) {
        Some(v) => Ok(coerce_mima_address(v)),
        None => Err(ParseNumberError),
    }
}

/// Reads a value literal, wrapped into the value space.
pub fn parse_mima_value(s: &str) -> (r: Result<MimaValue, ParseNumberError>)
    ensures
        r matches Ok(v) ==> parse_number(s@) matches Some(n) && v == wrap_value(n as int),
        r is Err ==> parse_number(s@) is None,
{
    let cs = chars_of(s);
    match parse_number_chars(&cs) {
        Some(v) => Ok(coerce_mima_value(v)),
        None => Err(ParseNumberError),
    }
}

} // verus!
