//! What a type needs to be an item of a managed vector.
use crate::types::{BigInt, BigUint, ManagedBuffer};
use vstd::prelude::*;

verus! {

/// An item of a managed vector. In the vector's backing buffer every item of one type is
/// encoded on the same number of bytes, its payload: a number on its own width, a value
/// that the host holds on the four bytes of its handle.
pub trait ManagedVecItem: Sized + View {
    /// The encoded size of one item in the backing buffer, in bytes.
    spec fn payload_size() -> nat;

    fn payload_size_bytes() -> (size: usize)
        ensures
            size == Self::payload_size(),
    ;

    /// A second item that holds the same value.
    fn clone_item(&self) -> (copy: Self)
        ensures
            copy@ == self@,
    ;
}

impl ManagedVecItem for u8 {
    open spec fn payload_size() -> nat {
        1
    }

    fn payload_size_bytes() -> (size: usize) {
        1
    }

    fn clone_item(&self) -> (copy: Self) {
        *self
    }
}

impl ManagedVecItem for u32 {
    open spec fn payload_size() -> nat {
        4
    }

    fn payload_size_bytes() -> (size: usize) {
        4
    }

    fn clone_item(&self) -> (copy: Self) {
        *self
    }
}

impl ManagedVecItem for u64 {
    open spec fn payload_size() -> nat {
        8
    }

    fn payload_size_bytes() -> (size: usize) {
        8
    }

    fn clone_item(&self) -> (copy: Self) {
        *self
    }
}

impl ManagedVecItem for i64 {
    open spec fn payload_size() -> nat {
        8
    }

    fn payload_size_bytes() -> (size: usize) {
        8
    }

    fn clone_item(&self) -> (copy: Self) {
        *self
    }
}

impl ManagedVecItem for ManagedBuffer {
    open spec fn payload_size() -> nat {
        4
    }

    fn payload_size_bytes() -> (size: usize) {
        4
    }

    fn clone_item(&self) -> (copy: Self) {
        ManagedBuffer::new_from_bytes(self.as_slice())
    }
}

impl ManagedVecItem for BigUint {
    open spec fn payload_size() -> nat {
        4
    }

    fn payload_size_bytes() -> (size: usize) {
        4
    }

    fn clone_item(&self) -> (copy: Self) {
        self.duplicate()
    }
}

impl ManagedVecItem for BigInt {
    open spec fn payload_size() -> nat {
        4
    }

    fn payload_size_bytes() -> (size: usize) {
        4
    }

    fn clone_item(&self) -> (copy: Self) {
        self.duplicate()
    }
}

} // verus!
