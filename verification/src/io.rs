//! Values as call arguments and as results.
//!
//! A type that is decoded from one whole byte string takes one argument off the list, and
//! gives one result or one argument of an outgoing call. A type may also stand for several
//! slots, or for none: the traits of this module leave that open, and say for every type
//! how many slots it takes and what it makes of them.
use crate::api::{DynArgInput, DynArgOutput, EndpointFinishApi};
use crate::codec::{TopDecode, TopEncode};
use crate::err_msg::{
    arg_decode_error_1_bytes, arg_decode_error_2_bytes, arg_decode_failure, arg_wrong_number,
    arg_wrong_number_bytes,
};
use crate::types::{load_outcome, ArgId, DecodeError, DecodeFailure, ManagedBuffer};
use vstd::prelude::*;

verus! {

/// What loading a value from the front of a list of arguments comes to: how many arguments
/// it takes, and the value's view or the message of the failure.
pub struct DynLoaded<V> {
    pub consumed: nat,
    pub outcome: Result<V, Seq<u8>>,
}

/// A type that can be loaded from the arguments of a call.
pub trait DynArg: Sized + View {
    /// What loading a value of this type from the front of `args` comes to.
    spec fn dyn_loaded(args: Seq<Seq<u8>>, arg_id: Seq<u8>) -> DynLoaded<Self::V>;

    /// A load never takes more arguments than there are, and a load that succeeds on a list
    /// that is not empty takes one at least.
    proof fn lemma_dyn_loaded(args: Seq<Seq<u8>>, arg_id: Seq<u8>)
        ensures
            Self::dyn_loaded(args, arg_id).consumed <= args.len(),
            args.len() > 0 && Self::dyn_loaded(args, arg_id).outcome is Ok ==> Self::dyn_loaded(
                args,
                arg_id,
            ).consumed >= 1,
    ;

    /// Loads a value from the arguments that `loader` has left. `arg_id` names the
    /// argument in the message of a failure. After a failure nothing is said of what the
    /// loader has left: the call is over.
    fn dyn_load<I: DynArgInput>(loader: &mut I, arg_id: ArgId) -> (outcome: Result<
        Self,
        DecodeFailure,
    >)
        ensures
            load_outcome(outcome) == Self::dyn_loaded(
                old(loader).remaining_args(),
                arg_id@,
            ).outcome,
            outcome is Ok ==> final(loader).remaining_args() == old(loader).remaining_args().skip(
                Self::dyn_loaded(old(loader).remaining_args(), arg_id@).consumed as int,
            ),
    ;
}

/// A type that can be handed back as the result of a call.
pub trait EndpointResult: View {
    /// The result slots that the value fills, in order.
    spec fn result_slots(value: Self::V) -> Seq<Seq<u8>>;

    /// Hands the value back through `api`.
    fn finish<FA: EndpointFinishApi>(&self, api: &mut FA)
        ensures
            final(api).results() == old(api).results() + Self::result_slots(self@),
    ;
}

/// A type that can be passed as an argument of an outgoing call.
pub trait ContractCallArg: View {
    /// The argument slots that the value fills, in order.
    spec fn arg_slots(value: Self::V) -> Seq<Seq<u8>>;

    /// Adds the value to the arguments in `output`.
    fn push_dyn_arg<O: DynArgOutput>(&self, output: &mut O)
        ensures
            final(output).pushed_args() == old(output).pushed_args() + Self::arg_slots(self@),
    ;
}

/// The failure that ends a call when the argument named `arg_id` cannot be decoded.
pub fn dyn_load_exit(arg_id: ArgId, de_err: DecodeError) -> (failure: DecodeFailure)
    ensures
        failure@ == arg_decode_failure(arg_id@, de_err@),
{
    let mut message_buffer = ManagedBuffer::from_vec(arg_decode_error_1_bytes());
    message_buffer.append_bytes(arg_id.as_bytes());
    message_buffer.append_bytes(arg_decode_error_2_bytes().as_slice());
    message_buffer.append_bytes(de_err.message_bytes());
    DecodeFailure { message: message_buffer.into_vec() }
}

/// Loading a value that is decoded from one whole byte string: it takes the first
/// argument and decodes it. Where no argument is left the load fails for want of one.
pub open spec fn load_one<T: TopDecode>(args: Seq<Seq<u8>>, arg_id: Seq<u8>) -> DynLoaded<T::V> {
    if args.len() == 0 {
        DynLoaded { consumed: 0, outcome: Err(arg_wrong_number()) }
    } else {
        DynLoaded {
            consumed: 1,
            outcome: match T::top_decoded(args[0]) {
                Ok(value) => Ok(value),
                Err(detail) => Err(arg_decode_failure(arg_id, detail)),
            },
        }
    }
}

/// A type that is decoded from one whole byte string takes exactly one argument.
impl<T: TopDecode> DynArg for T {
    open spec fn dyn_loaded(args: Seq<Seq<u8>>, arg_id: Seq<u8>) -> DynLoaded<T::V> {
        load_one::<T>(args, arg_id)
    }

    proof fn lemma_dyn_loaded(args: Seq<Seq<u8>>, arg_id: Seq<u8>) {
    }

    fn dyn_load<I: DynArgInput>(loader: &mut I, arg_id: ArgId) -> (outcome: Result<
        Self,
        DecodeFailure,
    >)
        ensures
            load_outcome(outcome) == load_one::<T>(old(loader).remaining_args(), arg_id@).outcome,
            outcome is Ok ==> final(loader).remaining_args() == old(loader).remaining_args().skip(
                1,
            ),
    {
        match loader.next_arg_input() {
            None => Err(DecodeFailure { message: arg_wrong_number_bytes() }),
            Some(arg_input) => match T::top_decode(arg_input) {
                Ok(value) => Ok(value),
                Err(de_err) => Err(dyn_load_exit(arg_id, de_err)),
            },
        }
    }
}

/// A type that is encoded as one whole byte string fills exactly one result slot.
impl<T: TopEncode> EndpointResult for T {
    open spec fn result_slots(value: T::V) -> Seq<Seq<u8>> {
        seq![T::top_encoded(value)]
    }

    fn finish<FA: EndpointFinishApi>(&self, api: &mut FA)
        ensures
            final(api).results() == old(api).results().push(T::top_encoded(self@)),
    {
        let bytes = self.top_encode();
        api.finish_slice_u8(bytes.as_slice());
        assert(old(api).results().push(bytes@) =~= old(api).results() + seq![bytes@]);
    }
}

/// A type that is encoded as one whole byte string fills exactly one argument slot.
impl<T: TopEncode> ContractCallArg for T {
    open spec fn arg_slots(value: T::V) -> Seq<Seq<u8>> {
        seq![T::top_encoded(value)]
    }

    fn push_dyn_arg<O: DynArgOutput>(&self, output: &mut O)
        ensures
            final(output).pushed_args() == old(output).pushed_args().push(T::top_encoded(self@)),
    {
        let bytes = self.top_encode();
        output.push_single_arg(bytes);
        assert(old(output).pushed_args().push(bytes@) =~= old(output).pushed_args()
            + seq![bytes@]);
    }
}

} // verus!
