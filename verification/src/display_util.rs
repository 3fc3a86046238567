//! Bytes as text, for the eyes of a person.
use crate::big_endian::{be_nat, lemma_min_be};
use crate::types::BigUint;
use vstd::prelude::*;
use vstd::string::StringExecFns;
use vstd::utf8::{decode_utf8, valid_utf8};

verus! {

/// The hexadecimal digit for a number from 0 to 15, letters in lower case.
pub open spec fn hex_digit(nibble: int) -> char {
    "0123456789abcdef"@[nibble]
}

/// Bytes in hexadecimal: two digits to the byte, the high one first, letters in lower
/// case.
pub open spec fn hex_lower(bytes: Seq<u8>) -> Seq<char>
    decreases bytes.len(),
{
    if bytes.len() == 0 {
        Seq::empty()
    } else {
        hex_lower(bytes.drop_last()).push(hex_digit(bytes.last() as int / 16)).push(
            hex_digit(bytes.last() as int % 16),
        )
    }
}

/// A key as text: `0x`, then the key's bytes in hexadecimal.
pub open spec fn key_hex_text(key: Seq<u8>) -> Seq<char> {
    "0x"@ + hex_lower(key)
}

/// `hex::encode` on a byte slice. It writes each byte as two digits, the high half first,
/// taken from `0123456789abcdef`.
#[verifier::external_body]
fn hex_encode(bytes: &[u8]) -> (text: String)
    ensures
        text@ == hex_lower(bytes@),
{
    hex::encode(bytes)
}

/// A key as text: `0x`, then the key's bytes in hexadecimal.
pub fn key_hex(key: &[u8]) -> (text: String)
    ensures
        text@ == key_hex_text(key@),
{
    let mut text = String::from_str("0x");
    text.append(hex_encode(key).as_str());
    text
}

/// Any bytes as text: `0x`, then the bytes in hexadecimal.
pub fn verbose_hex(value: &[u8]) -> (text: String)
    ensures
        text@ == key_hex_text(value@),
{
    key_hex(value)
}

/// The decimal digit for a number from 0 to 9.
pub open spec fn decimal_digit(digit: int) -> char {
    "0123456789"@[digit]
}

/// A number in decimal, without leading zeros: `0` for zero.
pub open spec fn decimal_text(n: nat) -> Seq<char>
    decreases n,
{
    if n < 10 {
        seq![decimal_digit(n as int)]
    } else {
        decimal_text(n / 10).push(decimal_digit((n % 10) as int))
    }
}

/// `num_bigint::BigUint::to_str_radix` with radix 10, on the number that
/// `num_bigint::BigUint::from_bytes_be` makes of `magnitude`. The one reads the bytes most
/// significant byte first; the other writes the number in decimal digits, `0` for zero and
/// no zero in front otherwise.
#[verifier::external_body]
fn big_uint_decimal(magnitude: &[u8]) -> (text: String)
    ensures
        text@ == decimal_text(be_nat(magnitude@)),
{
    num_bigint::BigUint::from_bytes_be(magnitude).to_str_radix(10)
}

/// `String::from_utf8`. It gives the text that the bytes encode where they are valid
/// UTF-8, and nothing where they are not.
#[verifier::external_body]
fn utf8_text(bytes: Vec<u8>) -> (text: Option<String>)
    ensures
        match text {
            Some(decoded) => valid_utf8(bytes@) && decoded@ == decode_utf8(bytes@),
            None => !valid_utf8(bytes@),
        },
{
    match String::from_utf8(bytes) {
        Ok(decoded) => Some(decoded),
        Err(_) => None,
    }
}

/// An unsigned integer of any size in decimal.
pub fn big_uint_text(value: &BigUint) -> (text: String)
    ensures
        text@ == decimal_text(value@),
{
    let magnitude = value.to_bytes_be();
    proof {
        lemma_min_be(value@);
    }
    big_uint_decimal(magnitude.as_slice())
}

/// The text that `bytes` encode in UTF-8, where they encode one.
pub fn text_of_bytes(bytes: &[u8]) -> (text: Option<String>)
    ensures
        match text {
            Some(decoded) => valid_utf8(bytes@) && decoded@ == decode_utf8(bytes@),
            None => !valid_utf8(bytes@),
        },
{
    utf8_text(crate::big_endian::bytes_to_vec(bytes))
}

} // verus!
