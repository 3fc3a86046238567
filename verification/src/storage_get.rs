//! Reading a typed value out of a storage slot.
//!
//! A slot is named by a key and holds a byte string; a key that was never written reads as
//! the empty string. [`storage_get`] turns the bytes of a slot into a value of the type
//! asked for. Native types are handed over by the storage itself; every other type is
//! decoded from the raw bytes. Malformed bytes end the call: the outcome is then a
//! [`DecodeFailure`] whose message starts with a fixed text and goes on with what the
//! decoder said.
use crate::big_endian::{be_i64, be_int, be_nat, be_u64};
use crate::codec::{TopDecode, TopDecodeInput, TryStaticCast};
use crate::err_msg::{storage_decode_error_bytes, storage_decode_failure};
use crate::types::{
    decode_outcome, load_outcome, native_from_bytes, BigInt, BigUint, DecodeError, DecodeFailure,
    ManagedBuffer, NativeKind, NativeValue, StorageKey,
};
use crate::nested_de_input::ManagedBufferNestedDecodeInput;
use vstd::prelude::*;

verus! {

/// What the host offers for reading storage. Every operation is a view on one map from
/// keys to byte strings, `storage_value`; a key that holds nothing reads as the empty
/// string.
pub trait StorageReadApi {
    /// The bytes kept under `key`; empty where nothing was written.
    spec fn storage_value(&self, key: Seq<u8>) -> Seq<u8>;

    /// The length of the value under `key`.
    fn storage_load_len(&self, key: &[u8]) -> (len: usize)
        ensures
            len == self.storage_value(key@).len(),
    ;

    /// The value under `key`, as raw bytes.
    fn storage_load_boxed_bytes(&self, key: &[u8]) -> (data: Vec<u8>)
        ensures
            data@ == self.storage_value(key@),
    ;

    /// The value under `key` as an unsigned machine integer, where the number fits.
    fn storage_load_u64(&self, key: &[u8]) -> (value: Option<u64>)
        ensures
            value == be_u64(self.storage_value(key@)),
    ;

    /// The value under `key` as a signed machine integer, where the number fits.
    fn storage_load_i64(&self, key: &[u8]) -> (value: Option<i64>)
        ensures
            value == be_i64(self.storage_value(key@)),
    ;

    /// The value under `key`, as a buffer.
    fn storage_load_managed_buffer(&self, key: &StorageKey) -> (buffer: ManagedBuffer)
        ensures
            buffer@ == self.storage_value(key@),
    ;

    /// The length of the value under `key`, without loading it.
    fn storage_load_managed_buffer_len(&self, key: &StorageKey) -> (len: usize)
        ensures
            len == self.storage_value(key@).len(),
    ;
}

/// One storage slot as a decoder's input. It holds no state of its own: it reads the slot
/// anew each time it is asked.
pub struct StorageGetInput<'k, A: StorageReadApi> {
    pub api: &'k A,
    pub key: &'k StorageKey,
}

impl<'k, A: StorageReadApi> StorageGetInput<'k, A> {
    pub fn new(api: &'k A, key: &'k StorageKey) -> (input: Self)
        ensures
            input.api == api,
            input.key == key,
    {
        StorageGetInput { api, key }
    }

    /// The slot's bytes as a buffer.
    pub fn to_managed_buffer(&self) -> (buffer: ManagedBuffer)
        ensures
            buffer@ == self.bytes(),
    {
        self.api.storage_load_managed_buffer(self.key)
    }

    /// The slot's bytes as an unsigned integer of any size, most significant byte first.
    pub fn to_big_uint(&self) -> (number: BigUint)
        ensures
            number@ == be_nat(self.bytes()),
    {
        BigUint::from_bytes_be_buffer(&self.to_managed_buffer())
    }

    /// The slot's bytes as a signed integer of any size, in two's complement.
    pub fn to_big_int(&self) -> (number: BigInt)
        ensures
            number@ == be_int(self.bytes()),
    {
        BigInt::from_signed_bytes_be_buffer(&self.to_managed_buffer())
    }
}

impl<'k, A: StorageReadApi> TopDecodeInput for StorageGetInput<'k, A> {
    open spec fn bytes(&self) -> Seq<u8> {
        self.api.storage_value(self.key@)
    }

    fn byte_len(&self) -> (len: usize)
        ensures
            len == self.api.storage_value(self.key@).len(),
    {
        let key_bytes = self.key.to_boxed_bytes();
        self.api.storage_load_len(key_bytes.as_slice())
    }

    fn into_boxed_slice_u8(self) -> (data: Vec<u8>)
        ensures
            data@ == self.api.storage_value(self.key@),
    {
        let key_bytes = self.key.to_boxed_bytes();
        self.api.storage_load_boxed_bytes(key_bytes.as_slice())
    }

    fn into_u64(self) -> (value: Option<u64>)
        ensures
            value == be_u64(self.api.storage_value(self.key@)),
    {
        let key_bytes = self.key.to_boxed_bytes();
        self.api.storage_load_u64(key_bytes.as_slice())
    }

    fn into_i64(self) -> (value: Option<i64>)
        ensures
            value == be_i64(self.api.storage_value(self.key@)),
    {
        let key_bytes = self.key.to_boxed_bytes();
        self.api.storage_load_i64(key_bytes.as_slice())
    }

    /// The three native kinds are tried in a fixed order: buffer, unsigned integer, signed
    /// integer. The type asked for decides which one applies, never the bytes; a native
    /// type is handed over as the storage holds it and `else_deser` is not run. For a type
    /// that is none of the three, `else_deser` does all the work.
    fn into_specialized<T, F>(self, else_deser: F) -> (outcome: Result<T, DecodeError>) where
        T: TryStaticCast,
        F: FnOnce(Self) -> Result<T, DecodeError>,

        ensures
            T::native_kind() matches Some(kind) ==> {
                &&& outcome matches Ok(value)
                &&& T::as_native(value@) == native_from_bytes(kind, self.bytes())
            },
            T::native_kind() is None ==> else_deser.ensures((self,), outcome),
    {
        match T::type_kind() {
            Some(NativeKind::Buffer) => {
                match T::try_cast(NativeValue::Buffer(self.to_managed_buffer())) {
                    Some(result) => Ok(result),
                    None => vstd::pervasive::unreached(),
                }
            },
            Some(NativeKind::BigUint) => {
                match T::try_cast(NativeValue::BigUint(self.to_big_uint())) {
                    Some(result) => Ok(result),
                    None => vstd::pervasive::unreached(),
                }
            },
            Some(NativeKind::BigInt) => {
                match T::try_cast(NativeValue::BigInt(self.to_big_int())) {
                    Some(result) => Ok(result),
                    None => vstd::pervasive::unreached(),
                }
            },
            None => else_deser(self),
        }
    }

    fn into_nested_buffer(self) -> (buffer: ManagedBufferNestedDecodeInput)
        ensures
            buffer.remaining() == self.api.storage_value(self.key@),
    {
        ManagedBufferNestedDecodeInput::new(self.to_managed_buffer())
    }
}

/// What reading a `T` out of a slot that holds `bytes` comes to: the value that the bytes
/// stand for, or the message of the failure.
pub open spec fn storage_decoded<T: TopDecode>(bytes: Seq<u8>) -> Result<T::V, Seq<u8>> {
    match T::top_decoded(bytes) {
        Ok(value) => Ok(value),
        Err(detail) => Err(storage_decode_failure(detail)),
    }
}

/// Reads the value of type `T` that is kept under `key`.
pub fn storage_get<A, T>(api: &A, key: &StorageKey) -> (outcome: Result<T, DecodeFailure>) where
    T: TopDecode,
    A: StorageReadApi,

    ensures
        load_outcome(outcome) == storage_decoded::<T>(api.storage_value(key@)),
{
    match T::top_decode(StorageGetInput::new(api, key)) {
        Ok(value) => Ok(value),
        Err(de_err) => Err(storage_get_exit(de_err)),
    }
}

/// The length in bytes of the value kept under `key`. These are the very bytes that
/// [`storage_get`] decodes, so the length is that of what a read of the key takes in; the
/// value itself is not loaded.
pub fn storage_get_len<A>(api: &A, key: &StorageKey) -> (len: usize) where A: StorageReadApi
    ensures
        len == api.storage_value(key@).len(),
{
    api.storage_load_managed_buffer_len(key)
}

/// The failure that ends a call when a stored value cannot be decoded: the fixed text,
/// then the decoder's own message.
pub fn storage_get_exit(de_err: DecodeError) -> (failure: DecodeFailure)
    ensures
        failure@ == storage_decode_failure(de_err@),
{
    let mut message_buffer = ManagedBuffer::from_vec(storage_decode_error_bytes());
    message_buffer.append_bytes(de_err.message_bytes());
    DecodeFailure { message: message_buffer.into_vec() }
}

/// The length that a slot reports is the length of the bytes that a read of the slot
/// decodes: both are taken of the one byte string that the storage keeps under the key.
pub proof fn lemma_byte_len_is_decoded_length<'k, A: StorageReadApi>(
    input: StorageGetInput<'k, A>,
)
    ensures
        input.bytes().len() == input.api.storage_value(input.key@).len(),
        input.bytes() == input.api.storage_value(input.key@),
{
}

} // verus!
