//! The bytes of one value as a decoder reads them piece by piece.
use crate::big_endian::copy_range;
use crate::err_msg::{input_too_short, input_too_short_bytes};
use crate::types::{decode_outcome, DecodeError, ManagedBuffer};
use vstd::prelude::*;

verus! {

/// A buffer and the place up to which it has been read.
pub struct ManagedBufferNestedDecodeInput {
    buffer: ManagedBuffer,
    decode_index: usize,
}

impl ManagedBufferNestedDecodeInput {
    #[verifier::type_invariant]
    spec fn in_range(self) -> bool {
        self.decode_index <= self.buffer@.len()
    }

    /// The bytes that have not been read yet.
    pub closed spec fn remaining(&self) -> Seq<u8> {
        self.buffer@.skip(self.decode_index as int)
    }

    /// A reader at the start of `buffer`.
    pub fn new(buffer: ManagedBuffer) -> (input: Self)
        ensures
            input.remaining() == buffer@,
    {
        assert(buffer@.skip(0) =~= buffer@);
        ManagedBufferNestedDecodeInput { buffer, decode_index: 0 }
    }

    /// The number of bytes that are left.
    pub fn remaining_len(&self) -> (len: usize)
        ensures
            len == self.remaining().len(),
    {
        proof {
            use_type_invariant(self);
        }
        self.buffer.len() - self.decode_index
    }

    /// Whether all bytes have been read.
    pub fn is_depleted(&self) -> (depleted: bool)
        ensures
            depleted == (self.remaining().len() == 0),
    {
        self.remaining_len() == 0
    }

    /// Reads the next `len` bytes. Where fewer are left, nothing is read and the decoder's
    /// complaint is that the input is too short.
    pub fn read_bytes(&mut self, len: usize) -> (outcome: Result<Vec<u8>, DecodeError>)
        ensures
            match outcome {
                Ok(bytes) => {
                    &&& len <= old(self).remaining().len()
                    &&& bytes@ == old(self).remaining().take(len as int)
                    &&& final(self).remaining() == old(self).remaining().skip(len as int)
                },
                Err(error) => {
                    &&& len > old(self).remaining().len()
                    &&& error@ == input_too_short()
                    &&& final(self).remaining() == old(self).remaining()
                },
            },
    {
        proof {
            use_type_invariant(&*self);
        }
        if len > self.buffer.len() - self.decode_index {
            return Err(DecodeError { message: input_too_short_bytes() });
        }
        let start = self.decode_index;
        let bytes = copy_range(self.buffer.as_slice(), start, start + len);
        assert(self.buffer@.subrange(start as int, start + len) =~= self.buffer@.skip(
            start as int,
        ).take(len as int));
        assert(self.buffer@.skip(start as int).skip(len as int) =~= self.buffer@.skip(start + len));
        self.decode_index = start + len;
        Ok(bytes)
    }
}

} // verus!
