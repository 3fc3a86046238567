//! The fixed texts of the failures that this crate reports, as byte strings.
use crate::big_endian::bytes_to_vec;
use vstd::prelude::*;
use vstd::string::StringSliceAdditionalSpecFns;

verus! {

/// What every failure to decode a stored value starts with.
pub open spec fn storage_decode_error() -> Seq<u8> {
    "storage decode error: ".spec_bytes()
}

/// What every failure to decode a call argument starts with; the argument's name follows.
pub open spec fn arg_decode_error_1() -> Seq<u8> {
    "argument decode error (".spec_bytes()
}

/// What stands between the argument's name and the decoder's own message.
pub open spec fn arg_decode_error_2() -> Seq<u8> {
    "): ".spec_bytes()
}

/// A value was asked of an argument list that has none left.
pub open spec fn arg_wrong_number() -> Seq<u8> {
    "wrong number of arguments".spec_bytes()
}

/// The decoder ran out of bytes.
pub open spec fn input_too_short() -> Seq<u8> {
    "input too short".spec_bytes()
}

/// The decoder was left with bytes, or a number was too wide for its type.
pub open spec fn input_too_long() -> Seq<u8> {
    "input too long".spec_bytes()
}

/// The message of a failure to decode the call argument `arg_name`, from the decoder's own
/// message `detail`.
pub open spec fn arg_decode_failure(arg_name: Seq<u8>, detail: Seq<u8>) -> Seq<u8> {
    arg_decode_error_1() + arg_name + arg_decode_error_2() + detail
}

/// The message of a failure to decode a stored value, from the decoder's own message
/// `detail`.
pub open spec fn storage_decode_failure(detail: Seq<u8>) -> Seq<u8> {
    storage_decode_error() + detail
}

pub fn storage_decode_error_bytes() -> (text: Vec<u8>)
    ensures
        text@ == storage_decode_error(),
{
    bytes_to_vec("storage decode error: ".as_bytes())
}

pub fn arg_decode_error_1_bytes() -> (text: Vec<u8>)
    ensures
        text@ == arg_decode_error_1(),
{
    bytes_to_vec("argument decode error (".as_bytes())
}

pub fn arg_decode_error_2_bytes() -> (text: Vec<u8>)
    ensures
        text@ == arg_decode_error_2(),
{
    bytes_to_vec("): ".as_bytes())
}

pub fn arg_wrong_number_bytes() -> (text: Vec<u8>)
    ensures
        text@ == arg_wrong_number(),
{
    bytes_to_vec("wrong number of arguments".as_bytes())
}

pub fn input_too_short_bytes() -> (text: Vec<u8>)
    ensures
        text@ == input_too_short(),
{
    bytes_to_vec("input too short".as_bytes())
}

} // verus!
