//! How a type describes itself to the tools that build call interfaces.
use crate::types::{BigInt, BigUint, ManagedBuffer};
use vstd::prelude::*;
use vstd::string::StringExecFns;

verus! {

/// A collection of the types that have been described, by name.
pub trait TypeDescriptionContainer {
    /// The names of the types described so far.
    spec fn described_types(&self) -> Set<Seq<char>>;

    /// Whether the type named `name` has been described.
    fn contains_type(&self, name: &str) -> (found: bool)
        ensures
            found == self.described_types().contains(name@),
    ;

    /// Records that the type named `name` has been described.
    fn insert(&mut self, name: String)
        ensures
            final(self).described_types() == old(self).described_types().insert(name@),
    ;
}

/// A type that can describe itself.
pub trait TypeAbi {
    /// The name of the type.
    spec fn type_name_spec() -> Seq<char>;

    /// The described types after this type has added what it has to describe to `names`.
    spec fn described(names: Set<Seq<char>>) -> Set<Seq<char>>;

    /// Whether a value of the type stands for any number of slots rather than for one.
    spec fn is_multi() -> bool;

    fn abi_type_name() -> (name: String)
        ensures
            name@ == Self::type_name_spec(),
    ;

    /// Adds what the type has to describe to `accumulator`.
    fn provide_type_descriptions<TDC: TypeDescriptionContainer>(accumulator: &mut TDC)
        ensures
            final(accumulator).described_types() == Self::described(
                old(accumulator).described_types(),
            ),
    ;

    fn is_multi_arg_or_result() -> (multi: bool)
        ensures
            multi == Self::is_multi(),
    ;
}

impl TypeAbi for u32 {
    open spec fn type_name_spec() -> Seq<char> {
        "u32"@
    }

    open spec fn described(names: Set<Seq<char>>) -> Set<Seq<char>> {
        names
    }

    open spec fn is_multi() -> bool {
        false
    }

    fn abi_type_name() -> (name: String) {
        String::from_str("u32")
    }

    fn provide_type_descriptions<TDC: TypeDescriptionContainer>(accumulator: &mut TDC) {
    }

    fn is_multi_arg_or_result() -> (multi: bool) {
        false
    }
}

impl TypeAbi for u64 {
    open spec fn type_name_spec() -> Seq<char> {
        "u64"@
    }

    open spec fn described(names: Set<Seq<char>>) -> Set<Seq<char>> {
        names
    }

    open spec fn is_multi() -> bool {
        false
    }

    fn abi_type_name() -> (name: String) {
        String::from_str("u64")
    }

    fn provide_type_descriptions<TDC: TypeDescriptionContainer>(accumulator: &mut TDC) {
    }

    fn is_multi_arg_or_result() -> (multi: bool) {
        false
    }
}

impl TypeAbi for i64 {
    open spec fn type_name_spec() -> Seq<char> {
        "i64"@
    }

    open spec fn described(names: Set<Seq<char>>) -> Set<Seq<char>> {
        names
    }

    open spec fn is_multi() -> bool {
        false
    }

    fn abi_type_name() -> (name: String) {
        String::from_str("i64")
    }

    fn provide_type_descriptions<TDC: TypeDescriptionContainer>(accumulator: &mut TDC) {
    }

    fn is_multi_arg_or_result() -> (multi: bool) {
        false
    }
}

impl TypeAbi for ManagedBuffer {
    open spec fn type_name_spec() -> Seq<char> {
        "bytes"@
    }

    open spec fn described(names: Set<Seq<char>>) -> Set<Seq<char>> {
        names
    }

    open spec fn is_multi() -> bool {
        false
    }

    fn abi_type_name() -> (name: String) {
        String::from_str("bytes")
    }

    fn provide_type_descriptions<TDC: TypeDescriptionContainer>(accumulator: &mut TDC) {
    }

    fn is_multi_arg_or_result() -> (multi: bool) {
        false
    }
}

impl TypeAbi for BigUint {
    open spec fn type_name_spec() -> Seq<char> {
        "BigUint"@
    }

    open spec fn described(names: Set<Seq<char>>) -> Set<Seq<char>> {
        names
    }

    open spec fn is_multi() -> bool {
        false
    }

    fn abi_type_name() -> (name: String) {
        String::from_str("BigUint")
    }

    fn provide_type_descriptions<TDC: TypeDescriptionContainer>(accumulator: &mut TDC) {
    }

    fn is_multi_arg_or_result() -> (multi: bool) {
        false
    }
}

impl TypeAbi for BigInt {
    open spec fn type_name_spec() -> Seq<char> {
        "BigInt"@
    }

    open spec fn described(names: Set<Seq<char>>) -> Set<Seq<char>> {
        names
    }

    open spec fn is_multi() -> bool {
        false
    }

    fn abi_type_name() -> (name: String) {
        String::from_str("BigInt")
    }

    fn provide_type_descriptions<TDC: TypeDescriptionContainer>(accumulator: &mut TDC) {
    }

    fn is_multi_arg_or_result() -> (multi: bool) {
        false
    }
}

} // verus!
