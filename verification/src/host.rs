//! The few places where the library leans on outside code: hexadecimal
//! conversion, the host's SHA-256 digest, and UTF-8 validation.
use vstd::prelude::*;
use vstd::utf8::encode_utf8;
use vstd::utf8::valid_utf8;

verus! {

pub open spec fn is_hex_digit(c: char) -> bool {
    ('0' <= c && c <= '9') || ('a' <= c && c <= 'f') || ('A' <= c && c <= 'F')
}

/// The numeric value of one hexadecimal digit, either case.
pub open spec fn hex_val(c: char) -> nat {
    if '0' <= c && c <= '9' {
        (c as u32 - '0' as u32) as nat
    } else if 'a' <= c && c <= 'f' {
        (c as u32 - 'a' as u32 + 10) as nat
    } else {
        (c as u32 - 'A' as u32 + 10) as nat
    }
}

/// A string denotes bytes when it has even length and hexadecimal
/// digits throughout.
pub open spec fn valid_hex(s: Seq<char>) -> bool {
    s.len() % 2 == 0 && (forall|i: int| 0 <= i < s.len() ==> is_hex_digit(#[trigger] s[i]))
}

/// The bytes denoted by a valid hexadecimal string.
pub open spec fn hex_bytes(s: Seq<char>) -> Seq<u8> {
    Seq::new((s.len() / 2) as nat, |i: int| (hex_val(s[2 * i]) * 16 + hex_val(s[2 * i + 1])) as u8)
}

/// The lowercase hexadecimal digit for a value below sixteen.
pub open spec fn hex_digit_char(n: nat) -> char {
    if n == 0 {
        '0'
    } else if n == 1 {
        '1'
    } else if n == 2 {
        '2'
    } else if n == 3 {
        '3'
    } else if n == 4 {
        '4'
    } else if n == 5 {
        '5'
    } else if n == 6 {
        '6'
    } else if n == 7 {
        '7'
    } else if n == 8 {
        '8'
    } else if n == 9 {
        '9'
    } else if n == 10 {
        'a'
    } else if n == 11 {
        'b'
    } else if n == 12 {
        'c'
    } else if n == 13 {
        'd'
    } else if n == 14 {
        'e'
    } else {
        'f'
    }
}

/// The lowercase hexadecimal rendering of a byte string: two digits per
/// byte, high digit first.
pub open spec fn hex_str(b: Seq<u8>) -> Seq<char> {
    Seq::new(
        2 * b.len(),
        |i: int|
            if i % 2 == 0 {
                hex_digit_char((b[i / 2] / 16) as nat)
            } else {
                hex_digit_char((b[i / 2] % 16) as nat)
            },
    )
}

/// The SHA-256 digest, named only: it is a function of the input bytes
/// alone, and nothing further is assumed of it.
pub uninterp spec fn sha256_of(bytes: Seq<u8>) -> Seq<u8>;

/// Relies on hex::decode: succeeds exactly on even-length strings of
/// hexadecimal digits (either case) and returns the bytes they denote.
#[verifier::external_body]
pub(crate) fn hex_decode(s: &String) -> (r: Option<Vec<u8>>)
    ensures
        match r {
            Option::Some(b) => valid_hex(s@) && b@ == hex_bytes(s@),
            Option::None => !valid_hex(s@),
        },
{
    match hex::decode(s.as_str()) {
        Ok(b) => Some(b),
        Err(_) => None,
    }
}

/// Relies on hex::encode: two lowercase hexadecimal digits per byte,
/// high digit first.
#[verifier::external_body]
pub(crate) fn hex_encode(b: &Vec<u8>) -> (r: String)
    ensures
        r@ == hex_str(b@),
{
    hex::encode(b.as_slice())
}

/// Relies on near_sdk::env::sha256: the 32-byte SHA-256 digest of the
/// input, a function of the input bytes alone.
#[verifier::external_body]
pub(crate) fn sha256_digest(b: &Vec<u8>) -> (r: Vec<u8>)
    ensures
        r@ == sha256_of(b@),
        r@.len() == 32,
{
    near_sdk::env::sha256(b.as_slice())
}

/// Relies on String::from_utf8: succeeds exactly on valid UTF-8 input
/// and returns the string that the bytes encode.
#[verifier::external_body]
pub(crate) fn string_from_utf8(bytes: Vec<u8>) -> (r: Option<String>)
    ensures
        match r {
            Option::Some(s) => encode_utf8(s@) == bytes@,
            Option::None => !valid_utf8(bytes@),
        },
{
    match String::from_utf8(bytes) {
        Ok(s) => Some(s),
        Err(_) => None,
    }
}

} // verus!
