//! What the host offers besides storage: the list of arguments that a call came with, the
//! list of results that it hands back, and the list of arguments of a call that it makes.
//! All three are lists of byte strings, one string to a slot; the number of slots is all
//! that tells how many values there are.
use vstd::prelude::*;

verus! {

/// The arguments of the call that have not been read yet, in order.
pub trait DynArgInput {
    /// The arguments that are left.
    spec fn remaining_args(&self) -> Seq<Seq<u8>>;

    /// Whether an argument is left.
    fn has_next(&self) -> (more: bool)
        ensures
            more == (self.remaining_args().len() > 0),
    ;

    /// Takes the next argument off the list, where one is left.
    fn next_arg_input(&mut self) -> (arg: Option<Vec<u8>>)
        ensures
            match arg {
                Some(bytes) => {
                    &&& old(self).remaining_args().len() > 0
                    &&& bytes@ == old(self).remaining_args()[0]
                    &&& final(self).remaining_args() == old(self).remaining_args().skip(1)
                },
                None => {
                    &&& old(self).remaining_args().len() == 0
                    &&& final(self).remaining_args() == old(self).remaining_args()
                },
            },
    ;
}

/// The arguments of a call that is being put together, in order.
pub trait DynArgOutput {
    /// The arguments written so far.
    spec fn pushed_args(&self) -> Seq<Seq<u8>>;

    /// Adds one argument at the end.
    fn push_single_arg(&mut self, bytes: Vec<u8>)
        ensures
            final(self).pushed_args() == old(self).pushed_args().push(bytes@),
    ;
}

/// The results of the call, in the order in which they were handed back.
pub trait EndpointFinishApi {
    /// The results handed back so far.
    spec fn results(&self) -> Seq<Seq<u8>>;

    /// Hands back one more result.
    fn finish_slice_u8(&mut self, bytes: &[u8])
        ensures
            final(self).results() == old(self).results().push(bytes@),
    ;
}

} // verus!
