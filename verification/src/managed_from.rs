//! Turning plain values into values of the host.
use crate::types::{BigUint, ManagedBuffer};
use vstd::prelude::*;

verus! {

/// A plain value that can be made into a `T`.
pub trait ManagedInto<T: View>: Sized {
    /// The view of the `T` that the value makes.
    spec fn managed_into_spec(self) -> T::V;

    fn managed_into(self) -> (value: T)
        ensures
            value@ == self.managed_into_spec(),
    ;
}

/// A type that can be made from a plain value of type `F`.
pub trait ManagedFrom<F>: Sized + View {
    /// The view of the value that `from` makes.
    spec fn managed_from_spec(from: F) -> Self::V;

    fn managed_from(from: F) -> (value: Self)
        ensures
            value@ == Self::managed_from_spec(from),
    ;
}

/// Bytes in memory make a buffer that holds them.
impl ManagedInto<ManagedBuffer> for Vec<u8> {
    open spec fn managed_into_spec(self) -> Seq<u8> {
        self@
    }

    fn managed_into(self) -> (value: ManagedBuffer) {
        ManagedBuffer::from_vec(self)
    }
}

/// A buffer makes the unsigned integer that its bytes spell.
impl ManagedInto<BigUint> for ManagedBuffer {
    open spec fn managed_into_spec(self) -> nat {
        crate::big_endian::be_nat(self@)
    }

    fn managed_into(self) -> (value: BigUint) {
        BigUint::from_bytes_be_buffer(&self)
    }
}

/// A `u32` makes the `u64` of the same number.
impl ManagedInto<u64> for u32 {
    open spec fn managed_into_spec(self) -> u64 {
        self as u64
    }

    fn managed_into(self) -> (value: u64) {
        self as u64
    }
}

} // verus!
