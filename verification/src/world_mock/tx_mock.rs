//! The arguments and the results of one call, and the arguments of an outgoing call, kept
//! in memory as lists of byte strings.
use crate::abi::TypeDescriptionContainer;
use crate::api::{DynArgInput, DynArgOutput, EndpointFinishApi};
use crate::big_endian::bytes_to_vec;
use vstd::prelude::*;

verus! {

/// The byte strings that a sequence of vectors holds, one for one.
pub open spec fn byte_strings(items: Seq<Vec<u8>>) -> Seq<Seq<u8>> {
    items.map_values(|item: Vec<u8>| item@)
}

/// The arguments that a call came with, and how many of them have been read.
pub struct TxInput {
    args: Vec<Vec<u8>>,
    next_index: usize,
}

impl TxInput {
    #[verifier::type_invariant]
    spec fn in_range(self) -> bool {
        self.next_index <= self.args@.len()
    }

    /// The arguments that a call with `args` starts with: all of them are left.
    pub fn new(args: Vec<Vec<u8>>) -> (input: Self)
        ensures
            input.remaining_args() == byte_strings(args@),
    {
        assert(byte_strings(args@).skip(0) =~= byte_strings(args@));
        TxInput { args, next_index: 0 }
    }
}

impl DynArgInput for TxInput {
    closed spec fn remaining_args(&self) -> Seq<Seq<u8>> {
        byte_strings(self.args@).skip(self.next_index as int)
    }

    fn has_next(&self) -> (more: bool) {
        proof {
            use_type_invariant(self);
        }
        self.next_index < self.args.len()
    }

    fn next_arg_input(&mut self) -> (arg: Option<Vec<u8>>) {
        proof {
            use_type_invariant(&*self);
        }
        if self.next_index < self.args.len() {
            let bytes = bytes_to_vec(self.args[self.next_index].as_slice());
            assert(byte_strings(self.args@).skip(self.next_index as int).skip(1) =~= byte_strings(
                self.args@,
            ).skip(self.next_index + 1));
            self.next_index = self.next_index + 1;
            Some(bytes)
        } else {
            None
        }
    }
}

/// The arguments of a call that is being put together.
pub struct ArgBuffer {
    args: Vec<Vec<u8>>,
}

impl ArgBuffer {
    pub fn new() -> (buffer: Self)
        ensures
            buffer.pushed_args() == Seq::<Seq<u8>>::empty(),
    {
        let buffer = ArgBuffer { args: Vec::new() };
        assert(buffer.pushed_args() =~= Seq::<Seq<u8>>::empty());
        buffer
    }

    /// The arguments written so far, in order.
    pub fn into_vec(self) -> (args: Vec<Vec<u8>>)
        ensures
            byte_strings(args@) == self.pushed_args(),
    {
        self.args
    }
}

impl DynArgOutput for ArgBuffer {
    closed spec fn pushed_args(&self) -> Seq<Seq<u8>> {
        byte_strings(self.args@)
    }

    fn push_single_arg(&mut self, bytes: Vec<u8>) {
        self.args.push(bytes);
        assert(byte_strings(old(self).args@.push(bytes)) =~= byte_strings(old(self).args@).push(
            bytes@,
        ));
    }
}

/// The results that a call has handed back.
pub struct TxResult {
    result_values: Vec<Vec<u8>>,
}

impl TxResult {
    pub fn new() -> (result: Self)
        ensures
            result.results() == Seq::<Seq<u8>>::empty(),
    {
        let result = TxResult { result_values: Vec::new() };
        assert(result.results() =~= Seq::<Seq<u8>>::empty());
        result
    }

    /// The results handed back so far, in order.
    pub fn into_vec(self) -> (values: Vec<Vec<u8>>)
        ensures
            byte_strings(values@) == self.results(),
    {
        self.result_values
    }
}

impl EndpointFinishApi for TxResult {
    closed spec fn results(&self) -> Seq<Seq<u8>> {
        byte_strings(self.result_values@)
    }

    fn finish_slice_u8(&mut self, bytes: &[u8]) {
        let value = bytes_to_vec(bytes);
        self.result_values.push(value);
        assert(byte_strings(old(self).result_values@.push(value)) =~= byte_strings(
            old(self).result_values@,
        ).push(bytes@));
    }
}

/// The names of the types that have been described, as a plain list.
pub struct TypeDescriptionContainerImpl {
    names: Vec<String>,
}

impl TypeDescriptionContainerImpl {
    pub fn new() -> (container: Self)
        ensures
            container.described_types() == Set::<Seq<char>>::empty(),
    {
        let container = TypeDescriptionContainerImpl { names: Vec::new() };
        assert(container.described_types() =~= Set::<Seq<char>>::empty());
        container
    }
}

impl TypeDescriptionContainer for TypeDescriptionContainerImpl {
    closed spec fn described_types(&self) -> Set<Seq<char>> {
        Set::new(|name: Seq<char>| exists|i: int| 0 <= i < self.names@.len() && self.names@[i]@ == name)
    }

    fn contains_type(&self, name: &str) -> (found: bool) {
        let wanted = name.to_owned();
        let mut index: usize = 0;
        while index < self.names.len()
            invariant
                index <= self.names@.len(),
                wanted@ == name@,
                forall|i: int| 0 <= i < index ==> self.names@[i]@ != name@,
            decreases self.names@.len() - index,
        {
            if self.names[index] == wanted {
                return true;
            }
            index += 1;
        }
        false
    }

    fn insert(&mut self, name: String) {
        self.names.push(name);
        assert forall|other: Seq<char>|
            self.described_types().contains(other) == old(self).described_types().insert(
                name@,
            ).contains(other) by {
            if old(self).described_types().contains(other) {
                let i = choose|i: int| 0 <= i < old(self).names@.len() && old(self).names@[i]@ == other;
                assert(self.names@[i]@ == other);
            }
            if other == name@ {
                assert(self.names@[old(self).names@.len() as int]@ == other);
            }
        }
        assert(self.described_types() =~= old(self).described_types().insert(name@));
    }
}

} // verus!
