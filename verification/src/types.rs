//! The values that cross the boundary as they are: byte buffers and integers of any size,
//! and the small records that go with them (keys, argument names, failures).
use crate::big_endian::{
    be_int, be_nat, bytes_as_i64, bytes_as_u64, bytes_to_vec, copy_range, count_leading_zeros,
    count_redundant_sign_bytes, is_min_be, is_min_signed_be, lemma_min_be_unique,
    lemma_min_signed_be_unique, lemma_strip_sign_bytes, lemma_strip_zeros, min_be, min_signed_be,
    strip_sign_bytes, strip_zeros,
};
use vstd::string::StringSliceAdditionalSpecFns;
use vstd::prelude::*;

verus! {

/// The three kinds of value that the host holds natively.
#[derive(Clone, Copy, Debug, PartialEq, Eq, Structural)]
pub enum NativeKind {
    /// A byte buffer.
    Buffer,
    /// An unsigned integer of any size.
    BigUint,
    /// A signed integer of any size.
    BigInt,
}

/// What a native value holds, as mathematics.
pub enum NativeView {
    Buffer(Seq<u8>),
    BigUint(nat),
    BigInt(int),
}

impl NativeView {
    pub open spec fn kind(self) -> NativeKind {
        match self {
            NativeView::Buffer(_) => NativeKind::Buffer,
            NativeView::BigUint(_) => NativeKind::BigUint,
            NativeView::BigInt(_) => NativeKind::BigInt,
        }
    }
}

/// The native value of kind `kind` that the bytes of a whole slot stand for: a buffer holds
/// the bytes themselves, an unsigned integer is their big-endian magnitude, a signed one
/// their two's complement value.
pub open spec fn native_from_bytes(kind: NativeKind, bytes: Seq<u8>) -> NativeView {
    match kind {
        NativeKind::Buffer => NativeView::Buffer(bytes),
        NativeKind::BigUint => NativeView::BigUint(be_nat(bytes)),
        NativeKind::BigInt => NativeView::BigInt(be_int(bytes)),
    }
}

/// A byte buffer.
#[derive(Clone, Debug, PartialEq, Eq)]
pub struct ManagedBuffer {
    bytes: Vec<u8>,
}

impl View for ManagedBuffer {
    type V = Seq<u8>;

    closed spec fn view(&self) -> Seq<u8> {
        self.bytes@
    }
}

impl ManagedBuffer {
    pub fn new() -> (buffer: Self)
        ensures
            buffer@ == Seq::<u8>::empty(),
    {
        ManagedBuffer { bytes: Vec::new() }
    }

    pub fn new_from_bytes(bytes: &[u8]) -> (buffer: Self)
        ensures
            buffer@ == bytes@,
    {
        ManagedBuffer { bytes: bytes_to_vec(bytes) }
    }

    pub fn from_vec(bytes: Vec<u8>) -> (buffer: Self)
        ensures
            buffer@ == bytes@,
    {
        ManagedBuffer { bytes }
    }

    pub fn len(&self) -> (len: usize)
        ensures
            len == self@.len(),
    {
        self.bytes.len()
    }

    pub fn is_empty(&self) -> (empty: bool)
        ensures
            empty == (self@.len() == 0),
    {
        self.bytes.len() == 0
    }

    pub fn as_slice(&self) -> (bytes: &[u8])
        ensures
            bytes@ == self@,
    {
        self.bytes.as_slice()
    }

    pub fn to_vec(&self) -> (bytes: Vec<u8>)
        ensures
            bytes@ == self@,
    {
        bytes_to_vec(self.bytes.as_slice())
    }

    pub fn into_vec(self) -> (bytes: Vec<u8>)
        ensures
            bytes@ == self@,
    {
        self.bytes
    }

    /// Adds `bytes` at the end.
    pub fn append_bytes(&mut self, bytes: &[u8])
        ensures
            final(self)@ == old(self)@ + bytes@,
    {
        let mut i: usize = 0;
        while i < bytes.len()
            invariant
                i <= bytes.len(),
                self.bytes@ == old(self).bytes@ + bytes@.subrange(0, i as int),
            decreases bytes.len() - i,
        {
            self.bytes.push(bytes[i]);
            i += 1;
        }
        assert(bytes@.subrange(0, bytes@.len() as int) =~= bytes@);
    }
}

/// An unsigned integer of any size, kept as its minimal big-endian byte string.
#[derive(Debug, PartialEq, Eq)]
pub struct BigUint {
    magnitude: Vec<u8>,
}

impl View for BigUint {
    type V = nat;

    closed spec fn view(&self) -> nat {
        be_nat(self.magnitude@)
    }
}

impl BigUint {
    #[verifier::type_invariant]
    spec fn minimal(self) -> bool {
        is_min_be(self.magnitude@)
    }

    pub fn zero() -> (value: Self)
        ensures
            value@ == 0,
    {
        BigUint { magnitude: Vec::new() }
    }

    /// The number that `bytes` spells, most significant byte first.
    pub fn from_bytes_be(bytes: &[u8]) -> (value: Self)
        ensures
            value@ == be_nat(bytes@),
    {
        let zeros = count_leading_zeros(bytes);
        proof {
            lemma_strip_zeros(bytes@);
            assert(bytes@.subrange(zeros as int, bytes@.len() as int) =~= strip_zeros(bytes@));
        }
        BigUint { magnitude: copy_range(bytes, zeros, bytes.len()) }
    }

    /// The number that the buffer's bytes spell, most significant byte first.
    pub fn from_bytes_be_buffer(buffer: &ManagedBuffer) -> (value: Self)
        ensures
            value@ == be_nat(buffer@),
    {
        Self::from_bytes_be(buffer.as_slice())
    }

    /// The minimal byte string of the number, most significant byte first: empty for zero.
    pub fn to_bytes_be(&self) -> (bytes: Vec<u8>)
        ensures
            bytes@ == min_be(self@),
    {
        proof {
            use_type_invariant(self);
            lemma_min_be_unique(self.magnitude@);
        }
        bytes_to_vec(self.magnitude.as_slice())
    }

    /// The number as a machine integer, where it fits.
    pub fn to_u64(&self) -> (value: Option<u64>)
        ensures
            value == (if self@ <= u64::MAX {
                Some(self@ as u64)
            } else {
                None
            }),
    {
        bytes_as_u64(self.magnitude.as_slice())
    }

    /// A second value that holds the same number.
    pub fn duplicate(&self) -> (copy: Self)
        ensures
            copy@ == self@,
    {
        proof {
            use_type_invariant(self);
        }
        BigUint { magnitude: bytes_to_vec(self.magnitude.as_slice()) }
    }
}

impl Clone for BigUint {
    fn clone(&self) -> (copy: Self)
        ensures
            copy@ == self@,
    {
        self.duplicate()
    }
}

/// A signed integer of any size, kept as its minimal two's complement byte string.
#[derive(Debug, PartialEq, Eq)]
pub struct BigInt {
    digits: Vec<u8>,
}

impl View for BigInt {
    type V = int;

    closed spec fn view(&self) -> int {
        be_int(self.digits@)
    }
}

impl BigInt {
    #[verifier::type_invariant]
    spec fn minimal(self) -> bool {
        is_min_signed_be(self.digits@)
    }

    pub fn zero() -> (value: Self)
        ensures
            value@ == 0,
    {
        BigInt { digits: Vec::new() }
    }

    /// The number that `bytes` spells in two's complement, most significant byte first.
    pub fn from_signed_bytes_be(bytes: &[u8]) -> (value: Self)
        ensures
            value@ == be_int(bytes@),
    {
        let redundant = count_redundant_sign_bytes(bytes);
        proof {
            lemma_strip_sign_bytes(bytes@);
            assert(bytes@.subrange(redundant as int, bytes@.len() as int) =~= strip_sign_bytes(
                bytes@,
            ));
        }
        BigInt { digits: copy_range(bytes, redundant, bytes.len()) }
    }

    /// The number that the buffer's bytes spell in two's complement.
    pub fn from_signed_bytes_be_buffer(buffer: &ManagedBuffer) -> (value: Self)
        ensures
            value@ == be_int(buffer@),
    {
        Self::from_signed_bytes_be(buffer.as_slice())
    }

    /// The minimal two's complement byte string of the number, most significant byte
    /// first: empty for zero.
    pub fn to_signed_bytes_be(&self) -> (bytes: Vec<u8>)
        ensures
            bytes@ == min_signed_be(self@),
    {
        proof {
            use_type_invariant(self);
            lemma_min_signed_be_unique(self.digits@);
        }
        bytes_to_vec(self.digits.as_slice())
    }

    /// The number as a machine integer, where it fits.
    pub fn to_i64(&self) -> (value: Option<i64>)
        ensures
            value == (if i64::MIN <= self@ <= i64::MAX {
                Some(self@ as i64)
            } else {
                None
            }),
    {
        bytes_as_i64(self.digits.as_slice())
    }

    /// A second value that holds the same number.
    pub fn duplicate(&self) -> (copy: Self)
        ensures
            copy@ == self@,
    {
        proof {
            use_type_invariant(self);
        }
        BigInt { digits: bytes_to_vec(self.digits.as_slice()) }
    }
}

impl Clone for BigInt {
    fn clone(&self) -> (copy: Self)
        ensures
            copy@ == self@,
    {
        self.duplicate()
    }
}

/// One native value of any of the three kinds.
#[derive(Clone, Debug, PartialEq, Eq)]
pub enum NativeValue {
    Buffer(ManagedBuffer),
    BigUint(BigUint),
    BigInt(BigInt),
}

impl View for NativeValue {
    type V = NativeView;

    open spec fn view(&self) -> NativeView {
        match self {
            NativeValue::Buffer(buffer) => NativeView::Buffer(buffer@),
            NativeValue::BigUint(value) => NativeView::BigUint(value@),
            NativeValue::BigInt(value) => NativeView::BigInt(value@),
        }
    }
}

/// The name of a storage slot: a byte string.
#[derive(Clone, Debug, PartialEq, Eq)]
pub struct StorageKey {
    buffer: ManagedBuffer,
}

impl View for StorageKey {
    type V = Seq<u8>;

    closed spec fn view(&self) -> Seq<u8> {
        self.buffer@
    }
}

impl StorageKey {
    pub fn new(base_key: &[u8]) -> (key: Self)
        ensures
            key@ == base_key@,
    {
        StorageKey { buffer: ManagedBuffer::new_from_bytes(base_key) }
    }

    /// Adds `bytes` at the end of the key.
    pub fn append_bytes(&mut self, bytes: &[u8])
        ensures
            final(self)@ == old(self)@ + bytes@,
    {
        self.buffer.append_bytes(bytes);
    }

    pub fn as_slice(&self) -> (bytes: &[u8])
        ensures
            bytes@ == self@,
    {
        self.buffer.as_slice()
    }

    pub fn to_boxed_bytes(&self) -> (bytes: Vec<u8>)
        ensures
            bytes@ == self@,
    {
        self.buffer.to_vec()
    }
}

/// The name of a call argument, as it appears in the message of a failure to decode it.
#[derive(Clone, Copy, Debug)]
pub struct ArgId {
    pub name: &'static str,
}

impl View for ArgId {
    type V = Seq<u8>;

    open spec fn view(&self) -> Seq<u8> {
        self.name.spec_bytes()
    }
}

impl ArgId {
    pub fn new(name: &'static str) -> (id: Self)
        ensures
            id.name == name,
    {
        ArgId { name }
    }

    pub fn as_bytes(&self) -> (bytes: &[u8])
        ensures
            bytes@ == self@,
    {
        self.name.as_bytes()
    }
}

/// What a decoder says when the bytes do not fit the type asked for.
#[derive(Clone, Debug, PartialEq, Eq)]
pub struct DecodeError {
    pub message: Vec<u8>,
}

impl View for DecodeError {
    type V = Seq<u8>;

    open spec fn view(&self) -> Seq<u8> {
        self.message@
    }
}

impl DecodeError {
    pub fn message_bytes(&self) -> (bytes: &[u8])
        ensures
            bytes@ == self@,
    {
        self.message.as_slice()
    }
}

/// The end of a call: malformed data was met, and the message says where and what. The
/// host turns it into an abort; nothing is handed back besides.
#[derive(Clone, Debug, PartialEq, Eq)]
pub struct DecodeFailure {
    pub message: Vec<u8>,
}

impl View for DecodeFailure {
    type V = Seq<u8>;

    open spec fn view(&self) -> Seq<u8> {
        self.message@
    }
}

impl DecodeFailure {
    pub fn message_bytes(&self) -> (bytes: &[u8])
        ensures
            bytes@ == self@,
    {
        self.message.as_slice()
    }
}

/// A decoder's outcome as mathematics: the value's view, or the bytes of the message.
pub open spec fn decode_outcome<T: View>(outcome: Result<T, DecodeError>) -> Result<T::V, Seq<u8>> {
    match outcome {
        Ok(value) => Ok(value@),
        Err(error) => Err(error@),
    }
}

/// The outcome of a whole load as mathematics: the value's view, or the bytes of the
/// failure's message.
pub open spec fn load_outcome<T: View>(outcome: Result<T, DecodeFailure>) -> Result<T::V, Seq<u8>> {
    match outcome {
        Ok(value) => Ok(value@),
        Err(failure) => Err(failure@),
    }
}

} // verus!
