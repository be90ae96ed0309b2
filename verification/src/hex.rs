//! Hexadecimal manifest numbers (`0x0961C0`) and big-endian words.

use vstd::prelude::*;

verus! {

/// Failure reported by the compilers: a short description of what drifted.
pub type Error = &'static str;

pub open spec fn is_hex_digit(c: char) -> bool {
    ('0' <= c && c <= '9') || ('a' <= c && c <= 'f') || ('A' <= c && c <= 'F')
}

pub open spec fn hex_digit_value(c: char) -> nat {
    if '0' <= c && c <= '9' {
        (c as nat - '0' as nat) as nat
    } else if 'a' <= c && c <= 'f' {
        (c as nat - 'a' as nat + 10) as nat
    } else {
        (c as nat - 'A' as nat + 10) as nat
    }
}

/// Value of a run of hexadecimal digits, most significant first.
pub open spec fn hex_digits_value(digits: Seq<char>) -> nat
    decreases digits.len(),
{
    if digits.len() == 0 {
        0
    } else {
        hex_digits_value(digits.drop_last()) * 16 + hex_digit_value(digits.last())
    }
}

pub open spec fn all_hex_digits(digits: Seq<char>) -> bool {
    forall|i: int| 0 <= i < digits.len() ==> is_hex_digit(#[trigger] digits[i])
}

/// A manifest number: `0x` or `0X` followed by at least one hexadecimal digit.
pub open spec fn spec_parse_hex(text: Seq<char>) -> Option<nat> {
    if text.len() >= 3 && text[0] == '0' && (text[1] == 'x' || text[1] == 'X')
        && all_hex_digits(text.skip(2)) {
        Some(hex_digits_value(text.skip(2)))
    } else {
        None
    }
}

/// The manifest number fits in `bound` (inclusive).
pub open spec fn hex_fits(text: Seq<char>, bound: nat) -> bool {
    spec_parse_hex(text) is Some && spec_parse_hex(text).unwrap() <= bound
}

proof fn lemma_hex_value_monotone(digits: Seq<char>, i: int, j: int)
    requires
        0 <= i <= j <= digits.len(),
        all_hex_digits(digits),
    ensures
        hex_digits_value(digits.take(i)) <= hex_digits_value(digits.take(j)),
    decreases j - i,
{
    if i < j {
        lemma_hex_value_monotone(digits, i, j - 1);
        assert(digits.take(j).drop_last() =~= digits.take(j - 1));
    }
}

pub fn hex_digit(c: char) -> (value: Option<u8>)
    ensures
        value is Some <==> is_hex_digit(c),
        value matches Some(v) ==> v as nat == hex_digit_value(c) && v < 16,
{
    if '0' <= c && c <= '9' {
        Some((c as u32 - '0' as u32) as u8)
    } else if 'a' <= c && c <= 'f' {
        Some((c as u32 - 'a' as u32 + 10) as u8)
    } else if 'A' <= c && c <= 'F' {
        Some((c as u32 - 'A' as u32 + 10) as u8)
    } else {
        None
    }
}

/// Parse a manifest number such as `0x0961C0`.
pub fn parse_hex(value: &str) -> (parsed: Result<usize, Error>)
    ensures
        parsed is Ok <==> hex_fits(value@, usize::MAX as nat),
        parsed matches Ok(v) ==> v as nat == spec_parse_hex(value@).unwrap(),
{
    let n = value.unicode_len();
    if n < 3 || value.get_char(0) != '0' || (value.get_char(1) != 'x' && value.get_char(1) != 'X') {
        return Err("manifest number is not a 0x-prefixed hexadecimal value");
    }
    let ghost digits = value@.skip(2);
    let mut acc: usize = 0;
    let mut i: usize = 2;
    while i < n
        invariant
            n == value@.len(),
            3 <= n,
            2 <= i <= n,
            digits == value@.skip(2),
            all_hex_digits(digits.take(i - 2)),
            acc as nat == hex_digits_value(digits.take(i - 2)),
        decreases n - i,
    {
        let c = value.get_char(i);
        assert(c == digits[i - 2]);
        match hex_digit(c) {
            None => {
                return Err("manifest number has a non-hexadecimal digit");
            },
            Some(d) => {
                assert(digits.take(i - 1).drop_last() =~= digits.take(i - 2));
                if acc > (usize::MAX - d as usize) / 16 {
                    proof {
                        if all_hex_digits(digits) {
                            lemma_hex_value_monotone(digits, i - 1, digits.len() as int);
                            assert(digits.take(digits.len() as int) =~= digits);
                        }
                    }
                    return Err("manifest number does not fit in a machine word");
                }
                acc = acc * 16 + d as usize;
                i = i + 1;
            },
        }
    }
    assert(digits.take(n - 2) =~= digits);
    Ok(acc)
}

/// Parse a manifest number that must fit in 16 bits.
pub fn parse_u16_hex(value: &str) -> (parsed: Result<u16, Error>)
    ensures
        parsed is Ok <==> hex_fits(value@, u16::MAX as nat),
        parsed matches Ok(v) ==> v as nat == spec_parse_hex(value@).unwrap(),
{
    let parsed = parse_hex(value)?;
    if parsed > 0xFFFF {
        return Err("manifest number does not fit in a 16-bit value");
    }
    Ok(parsed as u16)
}

/// Parse a manifest number that must fit in 8 bits.
pub fn parse_u8_hex(value: &str) -> (parsed: Result<u8, Error>)
    ensures
        parsed is Ok <==> hex_fits(value@, u8::MAX as nat),
        parsed matches Ok(v) ==> v as nat == spec_parse_hex(value@).unwrap(),
{
    let parsed = parse_hex(value)?;
    if parsed > 0xFF {
        return Err("manifest number does not fit in 8 bits");
    }
    Ok(parsed as u8)
}

/// Parse a manifest number that must fit in 32 bits.
pub fn parse_u32_hex(value: &str) -> (parsed: Result<u32, Error>)
    ensures
        parsed is Ok <==> hex_fits(value@, u32::MAX as nat),
        parsed matches Ok(v) ==> v as nat == spec_parse_hex(value@).unwrap(),
{
    let parsed = parse_hex(value)?;
    if parsed > 0xFFFF_FFFF {
        return Err("manifest number does not fit in 32 bits");
    }
    Ok(parsed as u32)
}

/// The manifest number denotes exactly `value`.
pub open spec fn hex_is(text: Seq<char>, value: nat) -> bool {
    spec_parse_hex(text) == Some(value)
}

/// The manifest number parses and denotes exactly `value`.
pub fn hex_equals(text: &String, value: usize) -> (equal: bool)
    ensures
        equal == hex_is(text@, value as nat),
{
    match parse_hex(text.as_str()) {
        Ok(parsed) => parsed == value,
        Err(_) => false,
    }
}

/// The word a manifest number denotes, taken as 16 bits.
pub open spec fn hex_word(text: Seq<char>) -> u16 {
    spec_parse_hex(text).unwrap() as u16
}

} // verus!
