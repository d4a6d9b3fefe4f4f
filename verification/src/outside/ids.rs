//! ULIDs: 128-bit identifiers in Crockford's base 32.
use vstd::prelude::*;
use vstd::utf8::encode_utf8;

verus! {

/// The character for the base-32 digit `d`.
pub open spec fn base32_char(d: nat) -> char {
    if d == 0 { '0' } else if d == 1 { '1' } else if d == 2 { '2' } else if d == 3 { '3' }
    else if d == 4 { '4' } else if d == 5 { '5' } else if d == 6 { '6' } else if d == 7 { '7' }
    else if d == 8 { '8' } else if d == 9 { '9' } else if d == 10 { 'A' } else if d == 11 { 'B' }
    else if d == 12 { 'C' } else if d == 13 { 'D' } else if d == 14 { 'E' } else if d == 15 { 'F' }
    else if d == 16 { 'G' } else if d == 17 { 'H' } else if d == 18 { 'J' } else if d == 19 { 'K' }
    else if d == 20 { 'M' } else if d == 21 { 'N' } else if d == 22 { 'P' } else if d == 23 { 'Q' }
    else if d == 24 { 'R' } else if d == 25 { 'S' } else if d == 26 { 'T' } else if d == 27 { 'V' }
    else if d == 28 { 'W' } else if d == 29 { 'X' } else if d == 30 { 'Y' } else { 'Z' }
}

/// The digit that a byte stands for, in upper or lower case.
pub open spec fn base32_digit(b: u8) -> Option<nat> {
    let c = if 97 <= b <= 122 { (b - 32) as int } else { b as int };
    if 48 <= c <= 57 {
        Some((c - 48) as nat)
    } else if 65 <= c <= 72 {
        Some((c - 55) as nat)
    } else if c == 74 || c == 75 {
        Some((c - 56) as nat)
    } else if c == 77 || c == 78 {
        Some((c - 57) as nat)
    } else if 80 <= c <= 84 {
        Some((c - 58) as nat)
    } else if 86 <= c <= 90 {
        Some((c - 59) as nat)
    } else {
        None
    }
}

/// The lowest `width` base-32 digits of `n`, most significant first.
pub open spec fn base32(n: nat, width: nat) -> Seq<char>
    decreases width,
{
    if width == 0 {
        Seq::empty()
    } else {
        base32(n / 32, (width - 1) as nat).push(base32_char(n % 32))
    }
}

/// The number that base-32 digits spell, if they are all digits.
pub open spec fn base32_value(bytes: Seq<u8>) -> Option<nat>
    decreases bytes.len(),
{
    if bytes.len() == 0 {
        Some(0)
    } else {
        match (base32_value(bytes.drop_last()), base32_digit(bytes.last())) {
            (Some(v), Some(d)) => Some(v * 32 + d),
            _ => None,
        }
    }
}

/// Why a text is no ULID.
#[derive(Copy, Clone, PartialEq, Eq, Debug, Structural)]
pub enum UlidFault {
    InvalidLength,
    InvalidChar,
}

/// The number that a text stands for: 26 base-32 digits, of which the lowest 128 bits
/// count.
pub open spec fn ulid_of_text(s: Seq<char>) -> Result<nat, UlidFault> {
    let bytes = encode_utf8(s);
    if bytes.len() != 26 {
        Err(UlidFault::InvalidLength)
    } else {
        match base32_value(bytes) {
            None => Err(UlidFault::InvalidChar),
            Some(v) => Ok(v % 0x1_0000_0000_0000_0000_0000_0000_0000_0000nat),
        }
    }
}

/// Calls `ulid::Ulid`'s `to_string`: 26 base-32 digits in upper case.
#[verifier::external_body]
pub(crate) fn ulid_to_string(x: u128) -> (r: String)
    ensures
        r@ == base32(x as nat, 26),
{
    ulid::Ulid(x).to_string()
}

/// Calls `ulid::Ulid::from_string`: fails on a text of another length than 26 bytes, then
/// on a character that is no base-32 digit; else the value of the digits, cut to its low
/// 128 bits.
#[verifier::external_body]
pub(crate) fn ulid_from_string(s: &str) -> (r: Result<u128, UlidFault>)
    ensures
        r matches Ok(v) ==> (ulid_of_text(s@) matches Ok(n) && n == v),
        r matches Err(f) ==> (ulid_of_text(s@) matches Err(g) && g == f),
{
    match ulid::Ulid::from_string(s) {
        Ok(u) => Ok(u.0),
        Err(ulid::DecodeError::InvalidLength) => Err(UlidFault::InvalidLength),
        Err(ulid::DecodeError::InvalidChar) => Err(UlidFault::InvalidChar),
    }
}

/// Calls `ulid::Ulid::new`: the clock and a random number. Nothing is said of the result.
#[verifier::external_body]
pub(crate) fn ulid_new() -> u128 {
    ulid::Ulid::new().0
}

spec fn pow32(n: nat) -> nat
    decreases n,
{
    if n == 0 {
        1
    } else {
        32 * pow32((n - 1) as nat)
    }
}

spec fn low_bytes(s: Seq<char>) -> Seq<u8> {
    Seq::new(s.len(), |i: int| s[i] as u8)
}

proof fn lemma_base32_digits(n: nat, width: nat)
    requires
        n < pow32(width),
    ensures
        base32(n, width).len() == width,
        base32_value(low_bytes(base32(n, width))) == Some(n),
        vstd::utf8::is_ascii_chars(base32(n, width)),
    decreases width,
{
    if width > 0 {
        let rest = base32(n / 32, (width - 1) as nat);
        lemma_base32_digits(n / 32, (width - 1) as nat);
        let all = low_bytes(base32(n, width));
        assert(all.drop_last() =~= low_bytes(rest));
        assert(base32_digit(all.last()) == Some(n % 32));
    }
}

/// The 26 digits of a 128-bit number read back as the number.
pub(crate) proof fn lemma_base32_back(x: nat)
    requires
        x < 0x1_0000_0000_0000_0000_0000_0000_0000_0000nat,
    ensures
        ulid_of_text(base32(x, 26)) == Ok::<nat, UlidFault>(x),
{
    reveal_with_fuel(pow32, 27);
    let text = base32(x, 26);
    lemma_base32_digits(x, 26);
    vstd::utf8::is_ascii_chars_encode_utf8(text);
    assert(encode_utf8(text) =~= low_bytes(text));
}

} // verus!
