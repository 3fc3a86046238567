//! Decoding and encoding of whole values.
//!
//! A value that stands alone, in a storage slot, an argument or a result, takes up all the
//! bytes it is given: nothing tells its length but the length of the slot. The traits of
//! this module say how a type is read from such bytes and written to them. A native type
//! (a buffer, an integer of any size) is handed over by the input itself where the input
//! can do so; every other type is read from the raw bytes by the codec.
use crate::big_endian::{
    be_fixed, be_i64, be_int, be_nat, be_u64, bytes_as_i64, bytes_as_u64, bytes_to_vec, low_eight,
    min_be, min_signed_be,
};
use crate::err_msg::{input_too_long, input_too_short};
use crate::types::{
    decode_outcome, native_from_bytes, BigInt, BigUint, DecodeError, ManagedBuffer, NativeKind,
    NativeValue, NativeView,
};
use crate::nested_de_input::ManagedBufferNestedDecodeInput;
use vstd::prelude::*;

verus! {

/// A type that may be one of the native kinds. The tag takes the place of a comparison of
/// types at run time: a type says itself which native kind it is, if any.
pub trait TryStaticCast: Sized + View {
    /// The native kind that this type is, if it is one.
    spec fn native_kind() -> Option<NativeKind>;

    /// The native value that a value of this type is. It has a meaning only where the type
    /// is native.
    spec fn as_native(value: Self::V) -> NativeView;

    fn type_kind() -> (kind: Option<NativeKind>)
        ensures
            kind == Self::native_kind(),
    ;

    /// The native value as a value of this type, where this type is of its kind.
    fn try_cast(value: NativeValue) -> (cast: Option<Self>)
        ensures
            cast is Some <==> Self::native_kind() == Some(value@.kind()),
            cast matches Some(v) ==> Self::as_native(v@) == value@,
    ;
}

/// Where the bytes of one whole value come from: a storage slot, a call argument, a
/// vector in memory.
pub trait TopDecodeInput: Sized {
    /// The bytes that the input holds.
    spec fn bytes(&self) -> Seq<u8>;

    /// The number of bytes that the input holds.
    fn byte_len(&self) -> (len: usize)
        ensures
            len == self.bytes().len(),
    ;

    /// All the bytes of the input, in one vector.
    fn into_boxed_slice_u8(self) -> (data: Vec<u8>)
        ensures
            data@ == self.bytes(),
    ;

    /// The bytes as an unsigned machine integer, where the number they spell fits.
    fn into_u64(self) -> (value: Option<u64>)
        ensures
            value == be_u64(self.bytes()),
    ;

    /// The bytes as a signed machine integer, where the number they spell fits.
    fn into_i64(self) -> (value: Option<i64>)
        ensures
            value == be_i64(self.bytes()),
    ;

    /// The value of a type that may be native. An input that holds native values hands
    /// the value over as it is where `T` is native; every other input, and every input
    /// for a type that is not native, leaves the work to `else_deser`.
    fn into_specialized<T, F>(self, else_deser: F) -> (outcome: Result<T, DecodeError>) where
        T: TryStaticCast,
        F: FnOnce(Self) -> Result<T, DecodeError>,

        requires
            else_deser.requires((self,)),
        ensures
            ({
                &&& T::native_kind() matches Some(kind)
                &&& outcome matches Ok(value)
                &&& T::as_native(value@) == native_from_bytes(kind, self.bytes())
            }) || else_deser.ensures((self,), outcome),
    ;

    /// All the bytes of the input, for a decoder that reads them piece by piece.
    fn into_nested_buffer(self) -> (buffer: ManagedBufferNestedDecodeInput)
        ensures
            buffer.remaining() == self.bytes(),
    ;
}

/// A type that can be read from the bytes of one whole value.
pub trait TopDecode: Sized + View {
    /// What the bytes stand for: a value, or the message of the decoder that refuses them.
    spec fn top_decoded(bytes: Seq<u8>) -> Result<Self::V, Seq<u8>>;

    /// Reads the value from `input`. Whatever the input and whichever way it hands the
    /// bytes over, the outcome is what `top_decoded` says of the bytes.
    fn top_decode<I: TopDecodeInput>(input: I) -> (outcome: Result<Self, DecodeError>)
        ensures
            decode_outcome(outcome) == Self::top_decoded(input.bytes()),
    ;
}

/// A type that can be written as the bytes of one whole value.
pub trait TopEncode: View {
    /// The bytes that stand for the value.
    spec fn top_encoded(value: Self::V) -> Seq<u8>;

    fn top_encode(&self) -> (bytes: Vec<u8>)
        ensures
            bytes@ == Self::top_encoded(self@),
    ;
}

/// A vector of bytes in memory is an input. It holds no native values: a native type is
/// read from it through `else_deser`.
impl TopDecodeInput for Vec<u8> {
    open spec fn bytes(&self) -> Seq<u8> {
        self@
    }

    fn byte_len(&self) -> (len: usize) {
        self.len()
    }

    fn into_boxed_slice_u8(self) -> (data: Vec<u8>) {
        self
    }

    fn into_u64(self) -> (value: Option<u64>) {
        bytes_as_u64(self.as_slice())
    }

    fn into_i64(self) -> (value: Option<i64>) {
        bytes_as_i64(self.as_slice())
    }

    /// Bytes in memory always leave the work to `else_deser`.
    fn into_specialized<T, F>(self, else_deser: F) -> (outcome: Result<T, DecodeError>) where
        T: TryStaticCast,
        F: FnOnce(Self) -> Result<T, DecodeError>,

        ensures
            else_deser.ensures((self,), outcome),
    {
        else_deser(self)
    }

    fn into_nested_buffer(self) -> (buffer: ManagedBufferNestedDecodeInput) {
        ManagedBufferNestedDecodeInput::new(ManagedBuffer::from_vec(self))
    }
}

impl TryStaticCast for ManagedBuffer {
    open spec fn native_kind() -> Option<NativeKind> {
        Some(NativeKind::Buffer)
    }

    open spec fn as_native(value: Seq<u8>) -> NativeView {
        NativeView::Buffer(value)
    }

    fn type_kind() -> (kind: Option<NativeKind>) {
        Some(NativeKind::Buffer)
    }

    fn try_cast(value: NativeValue) -> (cast: Option<Self>) {
        match value {
            NativeValue::Buffer(buffer) => Some(buffer),
            _ => None,
        }
    }
}

impl TryStaticCast for BigUint {
    open spec fn native_kind() -> Option<NativeKind> {
        Some(NativeKind::BigUint)
    }

    open spec fn as_native(value: nat) -> NativeView {
        NativeView::BigUint(value)
    }

    fn type_kind() -> (kind: Option<NativeKind>) {
        Some(NativeKind::BigUint)
    }

    fn try_cast(value: NativeValue) -> (cast: Option<Self>) {
        match value {
            NativeValue::BigUint(number) => Some(number),
            _ => None,
        }
    }
}

impl TryStaticCast for BigInt {
    open spec fn native_kind() -> Option<NativeKind> {
        Some(NativeKind::BigInt)
    }

    open spec fn as_native(value: int) -> NativeView {
        NativeView::BigInt(value)
    }

    fn type_kind() -> (kind: Option<NativeKind>) {
        Some(NativeKind::BigInt)
    }

    fn try_cast(value: NativeValue) -> (cast: Option<Self>) {
        match value {
            NativeValue::BigInt(number) => Some(number),
            _ => None,
        }
    }
}

/// A buffer read the general way: all the bytes of the input, copied out.
pub fn buffer_from_raw_bytes<I: TopDecodeInput>(input: I) -> (outcome: Result<
    ManagedBuffer,
    DecodeError,
>)
    ensures
        decode_outcome(outcome) == ManagedBuffer::top_decoded(input.bytes()),
{
    Ok(ManagedBuffer::from_vec(input.into_boxed_slice_u8()))
}

/// An unsigned integer read the general way: all the bytes of the input, copied out and
/// read most significant byte first.
pub fn big_uint_from_raw_bytes<I: TopDecodeInput>(input: I) -> (outcome: Result<
    BigUint,
    DecodeError,
>)
    ensures
        decode_outcome(outcome) == BigUint::top_decoded(input.bytes()),
{
    let data = input.into_boxed_slice_u8();
    Ok(BigUint::from_bytes_be(data.as_slice()))
}

/// A signed integer read the general way: all the bytes of the input, copied out and read
/// as two's complement.
pub fn big_int_from_raw_bytes<I: TopDecodeInput>(input: I) -> (outcome: Result<
    BigInt,
    DecodeError,
>)
    ensures
        decode_outcome(outcome) == BigInt::top_decoded(input.bytes()),
{
    let data = input.into_boxed_slice_u8();
    Ok(BigInt::from_signed_bytes_be(data.as_slice()))
}

impl TopDecode for ManagedBuffer {
    open spec fn top_decoded(bytes: Seq<u8>) -> Result<Seq<u8>, Seq<u8>> {
        Ok(bytes)
    }

    fn top_decode<I: TopDecodeInput>(input: I) -> (outcome: Result<Self, DecodeError>)
        ensures
            decode_outcome(outcome) == Ok::<Seq<u8>, Seq<u8>>(input.bytes()),
    {
        input.into_specialized(buffer_from_raw_bytes::<I>)
    }
}

impl TopDecode for BigUint {
    open spec fn top_decoded(bytes: Seq<u8>) -> Result<nat, Seq<u8>> {
        Ok(be_nat(bytes))
    }

    fn top_decode<I: TopDecodeInput>(input: I) -> (outcome: Result<Self, DecodeError>)
        ensures
            decode_outcome(outcome) == Ok::<nat, Seq<u8>>(be_nat(input.bytes())),
    {
        input.into_specialized(big_uint_from_raw_bytes::<I>)
    }
}

impl TopDecode for BigInt {
    open spec fn top_decoded(bytes: Seq<u8>) -> Result<int, Seq<u8>> {
        Ok(be_int(bytes))
    }

    fn top_decode<I: TopDecodeInput>(input: I) -> (outcome: Result<Self, DecodeError>)
        ensures
            decode_outcome(outcome) == Ok::<int, Seq<u8>>(be_int(input.bytes())),
    {
        input.into_specialized(big_int_from_raw_bytes::<I>)
    }
}

impl TopEncode for ManagedBuffer {
    open spec fn top_encoded(value: Seq<u8>) -> Seq<u8> {
        value
    }

    fn top_encode(&self) -> (bytes: Vec<u8>)
        ensures
            bytes@ == self@,
    {
        self.to_vec()
    }
}

impl TopEncode for BigUint {
    open spec fn top_encoded(value: nat) -> Seq<u8> {
        min_be(value)
    }

    fn top_encode(&self) -> (bytes: Vec<u8>)
        ensures
            bytes@ == min_be(self@),
    {
        self.to_bytes_be()
    }
}

impl TopEncode for BigInt {
    open spec fn top_encoded(value: int) -> Seq<u8> {
        min_signed_be(value)
    }

    fn top_encode(&self) -> (bytes: Vec<u8>)
        ensures
            bytes@ == min_signed_be(self@),
    {
        self.to_signed_bytes_be()
    }
}

/// What the codec reads a `u64` from: the number that the last eight bytes spell. Bytes
/// before them are passed over.
pub open spec fn top_decoded_u64(bytes: Seq<u8>) -> Result<u64, Seq<u8>> {
    Ok(be_nat(low_eight(bytes)) as u64)
}

/// What the codec reads a `u32` from: the number that the last eight bytes spell, where it
/// fits.
pub open spec fn top_decoded_u32(bytes: Seq<u8>) -> Result<u32, Seq<u8>> {
    if be_nat(low_eight(bytes)) > u32::MAX {
        Err(input_too_long())
    } else {
        Ok(be_nat(low_eight(bytes)) as u32)
    }
}

/// What the codec reads an `i64` from: the two's complement number that the last eight
/// bytes spell.
pub open spec fn top_decoded_i64(bytes: Seq<u8>) -> Result<i64, Seq<u8>> {
    Ok(be_int(low_eight(bytes)) as i64)
}

/// What the codec reads a pair of a `u32` and a `u64` from: exactly twelve bytes, four for
/// the first number and eight for the second.
pub open spec fn top_decoded_pair(bytes: Seq<u8>) -> Result<(u32, u64), Seq<u8>> {
    if bytes.len() < 12 {
        Err(input_too_short())
    } else if bytes.len() > 12 {
        Err(input_too_long())
    } else {
        Ok((be_nat(bytes.subrange(0, 4)) as u32, be_nat(bytes.subrange(4, 12)) as u64))
    }
}

/// What the codec writes a pair of a `u32` and a `u64` as: each number on its full width.
pub open spec fn top_encoded_pair(pair: (u32, u64)) -> Seq<u8> {
    be_fixed(pair.0 as nat, 4) + be_fixed(pair.1 as nat, 8)
}

/// `<u64 as elrond_codec::TopDecode>::top_decode` on a byte slice. The codec shifts the
/// bytes into a `u64` one after the other, so what is left is the number that the last
/// eight of them spell; it never refuses.
#[verifier::external_body]
fn codec_top_decode_u64(bytes: &[u8]) -> (outcome: Result<u64, DecodeError>)
    ensures
        decode_outcome(outcome) == top_decoded_u64(bytes@),
{
    match <u64 as elrond_codec::TopDecode>::top_decode(bytes) {
        Ok(value) => Ok(value),
        Err(error) => Err(DecodeError { message: error.message_bytes().to_vec() }),
    }
}

/// `<u32 as elrond_codec::TopDecode>::top_decode` on a byte slice. The codec reads the
/// bytes as it reads a `u64`, and refuses with "input too long" what is above `u32::MAX`.
#[verifier::external_body]
fn codec_top_decode_u32(bytes: &[u8]) -> (outcome: Result<u32, DecodeError>)
    ensures
        decode_outcome(outcome) == top_decoded_u32(bytes@),
{
    match <u32 as elrond_codec::TopDecode>::top_decode(bytes) {
        Ok(value) => Ok(value),
        Err(error) => Err(DecodeError { message: error.message_bytes().to_vec() }),
    }
}

/// `<i64 as elrond_codec::TopDecode>::top_decode` on a byte slice. The codec starts from all
/// ones where the first byte has its top bit set, from zero otherwise, and shifts the bytes
/// in: what is left is the two's complement number of the last eight bytes. It never
/// refuses.
#[verifier::external_body]
fn codec_top_decode_i64(bytes: &[u8]) -> (outcome: Result<i64, DecodeError>)
    ensures
        decode_outcome(outcome) == top_decoded_i64(bytes@),
{
    match <i64 as elrond_codec::TopDecode>::top_decode(bytes) {
        Ok(value) => Ok(value),
        Err(error) => Err(DecodeError { message: error.message_bytes().to_vec() }),
    }
}

/// `<(u32, u64) as elrond_codec::TopDecode>::top_decode` on a byte slice. The codec reads
/// four bytes, then eight, each most significant byte first; it refuses with "input too
/// short" where bytes are missing and with "input too long" where some are left.
#[verifier::external_body]
fn codec_top_decode_pair(bytes: &[u8]) -> (outcome: Result<(u32, u64), DecodeError>)
    ensures
        decode_outcome(outcome) == top_decoded_pair(bytes@),
{
    match <(u32, u64) as elrond_codec::TopDecode>::top_decode(bytes) {
        Ok(value) => Ok(value),
        Err(error) => Err(DecodeError { message: error.message_bytes().to_vec() }),
    }
}

/// `elrond_codec::top_encode_no_err` on a `u64`. The codec writes the number most
/// significant byte first and leaves out the zero bytes in front: nothing at all for zero.
#[verifier::external_body]
fn codec_top_encode_u64(value: u64) -> (bytes: Vec<u8>)
    ensures
        bytes@ == min_be(value as nat),
{
    elrond_codec::top_encode_no_err(&value)
}

/// `elrond_codec::top_encode_no_err` on a `u32`. The codec widens the number to a `u64` and
/// writes it as one.
#[verifier::external_body]
fn codec_top_encode_u32(value: u32) -> (bytes: Vec<u8>)
    ensures
        bytes@ == min_be(value as nat),
{
    elrond_codec::top_encode_no_err(&value)
}

/// `elrond_codec::top_encode_no_err` on an `i64`. The codec writes the number in two's
/// complement, most significant byte first, and leaves out the bytes in front that repeat
/// the sign: nothing at all for zero.
#[verifier::external_body]
fn codec_top_encode_i64(value: i64) -> (bytes: Vec<u8>)
    ensures
        bytes@ == min_signed_be(value as int),
{
    elrond_codec::top_encode_no_err(&value)
}

/// `elrond_codec::top_encode_to_vec_u8` on a pair of a `u32` and a `u64`. The codec writes
/// the first number on four bytes and the second on eight; neither of the two writes has a
/// way to fail, so the outcome is never an error.
#[verifier::external_body]
fn codec_top_encode_pair(pair: &(u32, u64)) -> (outcome: Result<Vec<u8>, Vec<u8>>)
    ensures
        match outcome {
            Ok(bytes) => bytes@ == top_encoded_pair(*pair),
            Err(_) => false,
        },
{
    match elrond_codec::top_encode_to_vec_u8(pair) {
        Ok(bytes) => Ok(bytes),
        Err(error) => Err(error.message_bytes().to_vec()),
    }
}

impl TopDecode for u64 {
    open spec fn top_decoded(bytes: Seq<u8>) -> Result<u64, Seq<u8>> {
        top_decoded_u64(bytes)
    }

    fn top_decode<I: TopDecodeInput>(input: I) -> (outcome: Result<Self, DecodeError>)
        ensures
            decode_outcome(outcome) == top_decoded_u64(input.bytes()),
    {
        let data = input.into_boxed_slice_u8();
        codec_top_decode_u64(data.as_slice())
    }
}

impl TopDecode for u32 {
    open spec fn top_decoded(bytes: Seq<u8>) -> Result<u32, Seq<u8>> {
        top_decoded_u32(bytes)
    }

    fn top_decode<I: TopDecodeInput>(input: I) -> (outcome: Result<Self, DecodeError>)
        ensures
            decode_outcome(outcome) == top_decoded_u32(input.bytes()),
    {
        let data = input.into_boxed_slice_u8();
        codec_top_decode_u32(data.as_slice())
    }
}

impl TopDecode for i64 {
    open spec fn top_decoded(bytes: Seq<u8>) -> Result<i64, Seq<u8>> {
        top_decoded_i64(bytes)
    }

    fn top_decode<I: TopDecodeInput>(input: I) -> (outcome: Result<Self, DecodeError>)
        ensures
            decode_outcome(outcome) == top_decoded_i64(input.bytes()),
    {
        let data = input.into_boxed_slice_u8();
        codec_top_decode_i64(data.as_slice())
    }
}

impl TopDecode for (u32, u64) {
    open spec fn top_decoded(bytes: Seq<u8>) -> Result<(u32, u64), Seq<u8>> {
        top_decoded_pair(bytes)
    }

    fn top_decode<I: TopDecodeInput>(input: I) -> (outcome: Result<Self, DecodeError>)
        ensures
            decode_outcome(outcome) == top_decoded_pair(input.bytes()),
    {
        let data = input.into_boxed_slice_u8();
        codec_top_decode_pair(data.as_slice())
    }
}

impl TopEncode for u64 {
    open spec fn top_encoded(value: u64) -> Seq<u8> {
        min_be(value as nat)
    }

    fn top_encode(&self) -> (bytes: Vec<u8>)
        ensures
            bytes@ == min_be(*self as nat),
    {
        codec_top_encode_u64(*self)
    }
}

impl TopEncode for i64 {
    open spec fn top_encoded(value: i64) -> Seq<u8> {
        min_signed_be(value as int)
    }

    fn top_encode(&self) -> (bytes: Vec<u8>)
        ensures
            bytes@ == min_signed_be(*self as int),
    {
        codec_top_encode_i64(*self)
    }
}

impl TopEncode for u32 {
    open spec fn top_encoded(value: u32) -> Seq<u8> {
        min_be(value as nat)
    }

    fn top_encode(&self) -> (bytes: Vec<u8>)
        ensures
            bytes@ == min_be(*self as nat),
    {
        codec_top_encode_u32(*self)
    }
}

impl TopEncode for (u32, u64) {
    open spec fn top_encoded(value: (u32, u64)) -> Seq<u8> {
        top_encoded_pair(value)
    }

    fn top_encode(&self) -> (bytes: Vec<u8>)
        ensures
            bytes@ == top_encoded_pair(*self),
    {
        match codec_top_encode_pair(self) {
            Ok(bytes) => bytes,
            Err(_) => vstd::pervasive::unreached(),
        }
    }
}

/// What the three native kinds write for a value: a buffer its bytes, an unsigned integer
/// its minimal big-endian string, a signed one its minimal two's complement string.
pub open spec fn native_to_bytes(value: NativeView) -> Seq<u8> {
    match value {
        NativeView::Buffer(bytes) => ManagedBuffer::top_encoded(bytes),
        NativeView::BigUint(number) => BigUint::top_encoded(number),
        NativeView::BigInt(number) => BigInt::top_encoded(number),
    }
}

/// A native value that is written and read back as its own kind is the value that was
/// written.
pub proof fn lemma_native_round_trip(value: NativeView)
    ensures
        native_from_bytes(value.kind(), native_to_bytes(value)) == value,
{
    match value {
        NativeView::Buffer(_) => {},
        NativeView::BigUint(number) => {
            crate::big_endian::lemma_min_be(number);
        },
        NativeView::BigInt(number) => {
            crate::big_endian::lemma_min_signed_be(number);
        },
    }
}

/// The value that an input hands over natively and the value that the general way of
/// reading makes of the raw bytes are one and the same, for each of the three native
/// kinds and for all bytes: handing over natively is a shorter way, not another meaning.
pub proof fn lemma_native_and_general_reading_agree(bytes: Seq<u8>)
    ensures
        ManagedBuffer::top_decoded(bytes) matches Ok(value) && ManagedBuffer::as_native(value)
            == native_from_bytes(NativeKind::Buffer, bytes),
        BigUint::top_decoded(bytes) matches Ok(value) && BigUint::as_native(value)
            == native_from_bytes(NativeKind::BigUint, bytes),
        BigInt::top_decoded(bytes) matches Ok(value) && BigInt::as_native(value)
            == native_from_bytes(NativeKind::BigInt, bytes),
{
}

/// A number that the codec writes and reads back as its own type is the number that was
/// written.
pub proof fn lemma_number_round_trip(small: u32, large: u64, signed: i64)
    ensures
        u32::top_decoded(u32::top_encoded(small)) == Ok::<u32, Seq<u8>>(small),
        u64::top_decoded(u64::top_encoded(large)) == Ok::<u64, Seq<u8>>(large),
        i64::top_decoded(i64::top_encoded(signed)) == Ok::<i64, Seq<u8>>(signed),
{
    crate::big_endian::lemma_pow256_values();
    crate::big_endian::lemma_min_be(small as nat);
    crate::big_endian::lemma_min_be(large as nat);
    crate::big_endian::lemma_min_signed_be(signed as int);
    crate::big_endian::lemma_min_be_length(small as nat, 8);
    crate::big_endian::lemma_min_be_length(large as nat, 8);
    crate::big_endian::lemma_min_signed_be_length(signed as int, 8);
}

/// A pair that the codec writes and reads back is the pair that was written.
pub proof fn lemma_pair_round_trip(pair: (u32, u64))
    ensures
        top_decoded_pair(top_encoded_pair(pair)) == Ok::<(u32, u64), Seq<u8>>(pair),
{
    let first = be_fixed(pair.0 as nat, 4);
    let second = be_fixed(pair.1 as nat, 8);
    let bytes = top_encoded_pair(pair);
    crate::big_endian::lemma_be_fixed(pair.0 as nat, 4);
    crate::big_endian::lemma_be_fixed(pair.1 as nat, 8);
    crate::big_endian::lemma_pow256_values();
    assert(bytes.subrange(0, 4) =~= first);
    assert(bytes.subrange(4, 12) =~= second);
    assert(pair.0 as nat % 0x1_0000_0000 == pair.0 as nat);
    assert(pair.1 as nat % 0x1_0000_0000_0000_0000 == pair.1 as nat);
}

} // verus!
