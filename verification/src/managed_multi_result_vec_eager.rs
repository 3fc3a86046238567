//! A group of values of one type whose number is not known beforehand.
//!
//! The group crosses the boundary as so many values, one after the other, not as one value
//! with a length in front: as arguments it takes all that the call has left, as results
//! it gives one slot to each item. Nothing but the order of the items is carried across,
//! and nothing but the number of slots tells how many there are.
use crate::abi::{TypeAbi, TypeDescriptionContainer};
use crate::api::{DynArgInput, DynArgOutput, EndpointFinishApi};
use crate::io::{ContractCallArg, DynArg, DynLoaded, EndpointResult};
use crate::managed_from::{ManagedFrom, ManagedInto};
use crate::managed_vec_item::ManagedVecItem;
use crate::types::{load_outcome, ArgId, DecodeFailure};
use vstd::prelude::*;
use vstd::std_specs::convert::{FromSpec, FromSpecImpl};
use vstd::string::StringExecFns;

verus! {

/// The views of the items of a sequence, one for one.
pub open spec fn item_views<T: View>(items: Seq<T>) -> Seq<T::V> {
    items.map_values(|item: T| item@)
}

/// An ordered group of items of type `T`, all of it in memory. Its view is the sequence of
/// the items' views, in the order in which they were put in.
pub struct ManagedMultiResultVecEager<T: ManagedVecItem> {
    items: Vec<T>,
}

pub type ManagedVarArgsEager<T> = ManagedMultiResultVecEager<T>;

impl<T: ManagedVecItem> View for ManagedMultiResultVecEager<T> {
    type V = Seq<T::V>;

    closed spec fn view(&self) -> Seq<T::V> {
        item_views(self.items@)
    }
}

impl<T: ManagedVecItem> From<Vec<T>> for ManagedMultiResultVecEager<T> {
    fn from(managed_vec: Vec<T>) -> (group: Self) {
        ManagedMultiResultVecEager { items: managed_vec }
    }
}

impl<T: ManagedVecItem> FromSpecImpl<Vec<T>> for ManagedMultiResultVecEager<T> {
    open spec fn obeys_from_spec() -> bool {
        true
    }

    closed spec fn from_spec(managed_vec: Vec<T>) -> Self {
        ManagedMultiResultVecEager { items: managed_vec }
    }
}

impl<T: ManagedVecItem> ManagedMultiResultVecEager<T> {
    /// The group that `From` makes of a vector holds the vector's items, in order.
    pub proof fn lemma_from_spec(managed_vec: Vec<T>)
        ensures
            <Self as FromSpec<Vec<T>>>::from_spec(managed_vec)@ == item_views(managed_vec@),
    {
    }

    /// The empty group.
    pub fn new() -> (group: Self)
        ensures
            group@ == Seq::<T::V>::empty(),
    {
        let group = ManagedMultiResultVecEager { items: Vec::new() };
        assert(group@ =~= Seq::<T::V>::empty());
        group
    }

    /// The total encoded size of the items in a backing buffer: the number of items times
    /// the payload size of one. The product has to fit a `usize`.
    pub fn byte_len(&self) -> (size: usize)
        requires
            self@.len() * T::payload_size() <= usize::MAX,
        ensures
            size == self@.len() * T::payload_size(),
    {
        self.items.len() * T::payload_size_bytes()
    }

    /// The number of items.
    pub fn len(&self) -> (len: usize)
        ensures
            len == self@.len(),
    {
        self.items.len()
    }

    pub fn is_empty(&self) -> (empty: bool)
        ensures
            empty == (self@.len() == 0),
    {
        self.items.len() == 0
    }

    /// The item at `index`, where there is one.
    pub fn get(&self, index: usize) -> (found: Option<T>)
        ensures
            match found {
                Some(item) => index < self@.len() && item@ == self@[index as int],
                None => index >= self@.len(),
            },
    {
        if index < self.items.len() {
            Some(self.items[index].clone_item())
        } else {
            None
        }
    }

    /// The items from `start_index` up to `end_index`, as a group of their own. Bounds
    /// that are out of order or out of range give nothing.
    pub fn slice(&self, start_index: usize, end_index: usize) -> (part: Option<Self>)
        ensures
            match part {
                Some(group) => {
                    &&& start_index <= end_index <= self@.len()
                    &&& group@ == self@.subrange(start_index as int, end_index as int)
                },
                None => !(start_index <= end_index <= self@.len()),
            },
    {
        if start_index > end_index || end_index > self.items.len() {
            return None;
        }
        let mut items: Vec<T> = Vec::new();
        let mut index: usize = start_index;
        while index < end_index
            invariant
                start_index <= index <= end_index <= self.items@.len(),
                item_views(items@) == self@.subrange(start_index as int, index as int),
            decreases end_index - index,
        {
            let item = self.items[index].clone_item();
            assert(item_views(items@.push(item)) =~= item_views(items@).push(item@));
            assert(self@.subrange(start_index as int, index + 1) =~= self@.subrange(
                start_index as int,
                index as int,
            ).push(self@[index as int]));
            items.push(item);
            index += 1;
        }
        Some(ManagedMultiResultVecEager { items })
    }

    /// Adds `item` at the end.
    pub fn push(&mut self, item: T)
        ensures
            final(self)@ == old(self)@.push(item@),
    {
        self.items.push(item);
        assert(item_views(old(self).items@.push(item)) =~= item_views(old(self).items@).push(
            item@,
        ));
    }

    /// The group of one item.
    pub fn from_single_item(item: T) -> (group: Self)
        ensures
            group@ == seq![item@],
    {
        let mut result = ManagedMultiResultVecEager::new();
        result.push(item);
        assert(result@ =~= seq![item@]);
        result
    }

    /// Drops what the group holds and puts `item` in its place.
    pub fn overwrite_with_single_item(&mut self, item: T)
        ensures
            final(self)@ == seq![item@],
    {
        self.items.clear();
        self.items.push(item);
        assert(item_views(self.items@) =~= seq![item@]);
    }

    /// Adds the items of `item` at the end, in their order. Nothing is merged and nothing
    /// is left out.
    pub fn append_vec(&mut self, item: ManagedMultiResultVecEager<T>)
        ensures
            final(self)@ == old(self)@ + item@,
    {
        let mut other = item.items;
        self.items.append(&mut other);
        assert(item_views(old(self).items@ + item.items@) =~= item_views(old(self).items@)
            + item_views(item.items@));
    }

    /// Drops all items.
    pub fn clear(&mut self)
        ensures
            final(self)@ == Seq::<T::V>::empty(),
    {
        self.items.clear();
        assert(item_views(self.items@) =~= Seq::<T::V>::empty());
    }

    /// The items, in order, as a plain vector.
    pub fn into_vec(self) -> (items: Vec<T>)
        ensures
            item_views(items@) == self@,
    {
        self.items
    }

    /// Lets `f` work on the items as a plain vector; what `f` leaves in the vector is what
    /// the group holds afterwards.
    pub fn with_self_as_vec<F>(&mut self, f: F) where F: FnOnce(&mut Vec<T>)
        requires
            forall|items: &mut Vec<T>|
                item_views((*items)@) == old(self)@ ==> #[trigger] f.requires((items,)),
        ensures
            exists|items: &mut Vec<T>|
                {
                    &&& item_views((*items)@) == old(self)@
                    &&& #[trigger] f.ensures((items,), ())
                    &&& item_views((*final(items))@) == final(self)@
                },
    {
        let items = &mut self.items;
        assert(item_views((*items)@) == old(self)@);
        f(items)
    }

    /// A pass over the items from the first to the last. The group is left as it is: a
    /// second pass gives the same items again.
    pub fn iter(&self) -> (iterator: ManagedVecIterator<'_, T>)
        ensures
            iterator.remaining() == self@,
    {
        ManagedVecIterator::new(self)
    }
}

/// A copy of a group holds copies of the items, in the same order; the two groups share
/// nothing afterwards.
impl<T: ManagedVecItem> Clone for ManagedMultiResultVecEager<T> {
    fn clone(&self) -> (copy: Self)
        ensures
            copy@ == self@,
    {
        let mut items: Vec<T> = Vec::new();
        let mut index: usize = 0;
        while index < self.items.len()
            invariant
                index <= self.items@.len(),
                item_views(items@) == self@.take(index as int),
            decreases self.items@.len() - index,
        {
            let item = self.items[index].clone_item();
            assert(item_views(items@.push(item)) =~= item_views(items@).push(item@));
            assert(self@.take(index + 1) =~= self@.take(index as int).push(self@[index as int]));
            items.push(item);
            index += 1;
        }
        assert(self@.take(self@.len() as int) =~= self@);
        ManagedMultiResultVecEager { items }
    }
}

/// A pass over the items of a group, from the first to the last.
pub struct ManagedVecIterator<'a, T: ManagedVecItem> {
    managed_vec: &'a ManagedMultiResultVecEager<T>,
    next_index: usize,
}

impl<'a, T: ManagedVecItem> ManagedVecIterator<'a, T> {
    #[verifier::type_invariant]
    spec fn in_range(self) -> bool {
        self.next_index <= self.managed_vec@.len()
    }

    /// The items that the pass has not given yet, in order.
    pub closed spec fn remaining(&self) -> Seq<T::V> {
        self.managed_vec@.skip(self.next_index as int)
    }

    /// A pass that starts at the first item of `managed_vec`.
    pub fn new(managed_vec: &'a ManagedMultiResultVecEager<T>) -> (iterator: Self)
        ensures
            iterator.remaining() == managed_vec@,
    {
        assert(managed_vec@.skip(0) =~= managed_vec@);
        ManagedVecIterator { managed_vec, next_index: 0 }
    }

    /// The next item, where one is left.
    pub fn next(&mut self) -> (item: Option<T>)
        ensures
            match item {
                Some(value) => {
                    &&& old(self).remaining().len() > 0
                    &&& value@ == old(self).remaining()[0]
                    &&& final(self).remaining() == old(self).remaining().skip(1)
                },
                None => {
                    &&& old(self).remaining().len() == 0
                    &&& final(self).remaining() == old(self).remaining()
                },
            },
    {
        proof {
            use_type_invariant(&*self);
        }
        let len = self.managed_vec.len();
        match self.managed_vec.get(self.next_index) {
            Some(value) => {
                assert(self.managed_vec@.skip(self.next_index as int).skip(1)
                    =~= self.managed_vec@.skip(self.next_index + 1));
                self.next_index = self.next_index + 1;
                Some(value)
            },
            None => None,
        }
    }
}

/// The group made of a vector of plain values holds what each of them makes, in the
/// vector's order.
impl<T, I> ManagedFrom<Vec<I>> for ManagedMultiResultVecEager<T> where
    T: ManagedVecItem,
    I: ManagedInto<T>,
 {
    open spec fn managed_from_spec(from: Vec<I>) -> Seq<T::V> {
        from@.map_values(|item: I| item.managed_into_spec())
    }

    fn managed_from(v: Vec<I>) -> (group: Self)
        ensures
            group@ == v@.map_values(|item: I| item.managed_into_spec()),
    {
        let mut result = Self::new();
        let ghost plain = v@;
        for item in it: v
            invariant
                it.seq() == plain,
                result@ == plain.take(it.index()).map_values(|item: I| item.managed_into_spec()),
        {
            assert(plain.take(it.index() + 1).map_values(|item: I| item.managed_into_spec())
                =~= plain.take(it.index()).map_values(|item: I| item.managed_into_spec()).push(
                item.managed_into_spec(),
            ));
            result.push(item.managed_into());
        }
        assert(plain.take(plain.len() as int) =~= plain);
        result
    }
}

/// Loading items until no argument is left: each load starts where the one before it
/// stopped, and the first failure is the failure of the whole.
pub open spec fn load_all<T: DynArg>(args: Seq<Seq<u8>>, arg_id: Seq<u8>) -> DynLoaded<Seq<T::V>>
    decreases args.len(),
    via load_all_decreases::<T>
{
    if args.len() == 0 {
        DynLoaded { consumed: 0, outcome: Ok(Seq::empty()) }
    } else {
        let first = T::dyn_loaded(args, arg_id);
        match first.outcome {
            Err(message) => DynLoaded { consumed: first.consumed, outcome: Err(message) },
            Ok(item) => {
                let rest = load_all::<T>(args.skip(first.consumed as int), arg_id);
                DynLoaded {
                    consumed: first.consumed + rest.consumed,
                    outcome: match rest.outcome {
                        Ok(items) => Ok(seq![item] + items),
                        Err(message) => Err(message),
                    },
                }
            },
        }
    }
}

#[via_fn]
proof fn load_all_decreases<T: DynArg>(args: Seq<Seq<u8>>, arg_id: Seq<u8>) {
    T::lemma_dyn_loaded(args, arg_id);
}

/// The items loaded so far, put in front of what the rest of the arguments gives.
pub open spec fn after_loaded<V>(done: Seq<V>, rest: Result<Seq<V>, Seq<u8>>) -> Result<
    Seq<V>,
    Seq<u8>,
> {
    match rest {
        Ok(items) => Ok(done + items),
        Err(message) => Err(message),
    }
}

/// Loading all there is never takes more arguments than there are; where it succeeds it
/// takes them all.
pub proof fn lemma_load_all_takes_all<T: DynArg>(args: Seq<Seq<u8>>, arg_id: Seq<u8>)
    ensures
        load_all::<T>(args, arg_id).consumed <= args.len(),
        load_all::<T>(args, arg_id).outcome is Ok ==> load_all::<T>(args, arg_id).consumed
            == args.len(),
    decreases args.len(),
{
    if args.len() > 0 {
        T::lemma_dyn_loaded(args, arg_id);
        let first = T::dyn_loaded(args, arg_id);
        if first.outcome is Ok {
            lemma_load_all_takes_all::<T>(args.skip(first.consumed as int), arg_id);
        }
    }
}

/// A group is loaded from all the arguments that the call has left: items are loaded one
/// after the other as long as an argument is left. No count and no end mark is read; where
/// no argument is left the group is empty.
impl<T: ManagedVecItem + DynArg> DynArg for ManagedMultiResultVecEager<T> {
    open spec fn dyn_loaded(args: Seq<Seq<u8>>, arg_id: Seq<u8>) -> DynLoaded<Seq<T::V>> {
        load_all::<T>(args, arg_id)
    }

    proof fn lemma_dyn_loaded(args: Seq<Seq<u8>>, arg_id: Seq<u8>) {
        lemma_load_all_takes_all::<T>(args, arg_id);
        if args.len() > 0 {
            T::lemma_dyn_loaded(args, arg_id);
        }
    }

    fn dyn_load<I: DynArgInput>(loader: &mut I, arg_id: ArgId) -> (outcome: Result<
        Self,
        DecodeFailure,
    >)
        ensures
            load_outcome(outcome) == load_all::<T>(old(loader).remaining_args(), arg_id@).outcome,
            outcome is Ok ==> final(loader).remaining_args() == Seq::<Seq<u8>>::empty(),
    {
        let mut result_vec: Vec<T> = Vec::new();
        let ghost all_args = loader.remaining_args();
        let ghost mut taken: nat = 0;
        proof {
            assert(all_args.skip(0) =~= all_args);
            assert(Seq::<T::V>::empty() + Seq::<T::V>::empty() =~= Seq::<T::V>::empty());
            assert(item_views(result_vec@) =~= Seq::<T::V>::empty());
            match load_all::<T>(all_args, arg_id@).outcome {
                Ok(items) => {
                    assert(Seq::<T::V>::empty() + items =~= items);
                },
                Err(_) => {},
            }
        }
        while loader.has_next()
            invariant
                all_args == old(loader).remaining_args(),
                taken <= all_args.len(),
                loader.remaining_args() == all_args.skip(taken as int),
                load_all::<T>(all_args, arg_id@).outcome == after_loaded(
                    item_views(result_vec@),
                    load_all::<T>(loader.remaining_args(), arg_id@).outcome,
                ),
                load_all::<T>(all_args, arg_id@).consumed == taken + load_all::<T>(
                    loader.remaining_args(),
                    arg_id@,
                ).consumed || load_all::<T>(all_args, arg_id@).outcome is Err,
            decreases loader.remaining_args().len(),
        {
            let ghost left = loader.remaining_args();
            let ghost first = T::dyn_loaded(left, arg_id@);
            proof {
                T::lemma_dyn_loaded(left, arg_id@);
            }
            match T::dyn_load(loader, arg_id) {
                Ok(item) => {
                    proof {
                        let rest = load_all::<T>(left.skip(first.consumed as int), arg_id@);
                        assert(left.skip(first.consumed as int) =~= all_args.skip(
                            (taken + first.consumed) as int,
                        ));
                        assert(item_views(result_vec@.push(item)) =~= item_views(
                            result_vec@,
                        ).push(item@));
                        match rest.outcome {
                            Ok(items) => {
                                assert(item_views(result_vec@) + (seq![item@] + items)
                                    =~= item_views(result_vec@).push(item@) + items);
                            },
                            Err(_) => {},
                        }
                        taken = taken + first.consumed;
                    }
                    result_vec.push(item);
                },
                Err(failure) => {
                    return Err(failure);
                },
            }
        }
        let group = ManagedMultiResultVecEager { items: result_vec };
        proof {
            assert(item_views(result_vec@) + Seq::<T::V>::empty() =~= item_views(result_vec@));
            assert(all_args.skip(all_args.len() as int) =~= all_args.skip(taken as int)) by {
                lemma_load_all_takes_all::<T>(all_args, arg_id@);
            }
        }
        Ok(group)
    }
}

/// The result slots of a sequence of items: those of the first item, then those of the
/// second, and so on.
pub open spec fn all_result_slots<T: EndpointResult>(items: Seq<T::V>) -> Seq<Seq<u8>> {
    items.map_values(|value: T::V| T::result_slots(value)).flatten()
}

/// The argument slots of a sequence of items: those of the first item, then those of the
/// second, and so on.
pub open spec fn all_arg_slots<T: ContractCallArg>(items: Seq<T::V>) -> Seq<Seq<u8>> {
    items.map_values(|value: T::V| T::arg_slots(value)).flatten()
}

/// A group is handed back item by item, each as it would be handed back alone. No count
/// goes before the items and nothing wraps them.
impl<T: ManagedVecItem + EndpointResult> EndpointResult for ManagedMultiResultVecEager<T> {
    open spec fn result_slots(value: Seq<T::V>) -> Seq<Seq<u8>> {
        all_result_slots::<T>(value)
    }

    fn finish<FA: EndpointFinishApi>(&self, api: &mut FA)
        ensures
            final(api).results() == old(api).results() + all_result_slots::<T>(self@),
    {
        let mut index: usize = 0;
        assert(self@.take(0) =~= Seq::<T::V>::empty());
        assert(all_result_slots::<T>(Seq::<T::V>::empty()) =~= Seq::<Seq<u8>>::empty());
        assert(api.results() + Seq::<Seq<u8>>::empty() =~= api.results());
        while index < self.items.len()
            invariant
                index <= self.items@.len(),
                api.results() == old(api).results() + all_result_slots::<T>(
                    self@.take(index as int),
                ),
            decreases self.items@.len() - index,
        {
            let ghost before = self@.take(index as int);
            let ghost slots = before.map_values(|value: T::V| T::result_slots(value));
            proof {
                assert(self@.take(index + 1) =~= before.push(self@[index as int]));
                assert(before.push(self@[index as int]).map_values(
                    |value: T::V| T::result_slots(value),
                ) =~= slots.push(T::result_slots(self@[index as int])));
                slots.lemma_flatten_push(T::result_slots(self@[index as int]));
            }
            let elem = &self.items[index];
            elem.finish(api);
            index += 1;
        }
        assert(self@.take(self@.len() as int) =~= self@);
    }
}

/// A group is passed to an outgoing call item by item, each as it would be passed alone.
impl<T: ManagedVecItem + ContractCallArg> ContractCallArg for ManagedMultiResultVecEager<T> {
    open spec fn arg_slots(value: Seq<T::V>) -> Seq<Seq<u8>> {
        all_arg_slots::<T>(value)
    }

    fn push_dyn_arg<O: DynArgOutput>(&self, output: &mut O)
        ensures
            final(output).pushed_args() == old(output).pushed_args() + all_arg_slots::<T>(self@),
    {
        let mut index: usize = 0;
        assert(self@.take(0) =~= Seq::<T::V>::empty());
        assert(all_arg_slots::<T>(Seq::<T::V>::empty()) =~= Seq::<Seq<u8>>::empty());
        assert(output.pushed_args() + Seq::<Seq<u8>>::empty() =~= output.pushed_args());
        while index < self.items.len()
            invariant
                index <= self.items@.len(),
                output.pushed_args() == old(output).pushed_args() + all_arg_slots::<T>(
                    self@.take(index as int),
                ),
            decreases self.items@.len() - index,
        {
            let ghost before = self@.take(index as int);
            let ghost slots = before.map_values(|value: T::V| T::arg_slots(value));
            proof {
                assert(self@.take(index + 1) =~= before.push(self@[index as int]));
                assert(before.push(self@[index as int]).map_values(
                    |value: T::V| T::arg_slots(value),
                ) =~= slots.push(T::arg_slots(self@[index as int])));
                slots.lemma_flatten_push(T::arg_slots(self@[index as int]));
            }
            let elem = &self.items[index];
            elem.push_dyn_arg(output);
            index += 1;
        }
        assert(self@.take(self@.len() as int) =~= self@);
    }
}

/// A group behind a reference is passed as the group itself.
impl<T: ManagedVecItem + ContractCallArg> ContractCallArg for &ManagedMultiResultVecEager<T> {
    open spec fn arg_slots(value: Seq<T::V>) -> Seq<Seq<u8>> {
        all_arg_slots::<T>(value)
    }

    fn push_dyn_arg<O: DynArgOutput>(&self, output: &mut O)
        ensures
            final(output).pushed_args() == old(output).pushed_args() + all_arg_slots::<T>(self@),
    {
        (*self).push_dyn_arg(output)
    }
}

/// A group names itself after its item type, and says that it stands for any number of
/// slots. What there is to describe of the item type, the item type describes.
impl<T: ManagedVecItem + TypeAbi> TypeAbi for ManagedMultiResultVecEager<T> {
    open spec fn type_name_spec() -> Seq<char> {
        "variadic<"@ + T::type_name_spec() + ">"@
    }

    open spec fn described(names: Set<Seq<char>>) -> Set<Seq<char>> {
        T::described(names)
    }

    open spec fn is_multi() -> bool {
        true
    }

    fn abi_type_name() -> (name: String)
        ensures
            name@ == "variadic<"@ + T::type_name_spec() + ">"@,
    {
        let mut repr = String::from_str("variadic<");
        repr.append(T::abi_type_name().as_str());
        repr.append(">");
        repr
    }

    fn provide_type_descriptions<TDC: TypeDescriptionContainer>(accumulator: &mut TDC)
        ensures
            final(accumulator).described_types() == T::described(
                old(accumulator).described_types(),
            ),
    {
        T::provide_type_descriptions(accumulator);
    }

    fn is_multi_arg_or_result() -> (multi: bool)
        ensures
            multi,
    {
        true
    }
}

/// What a group holds after `items` were pushed onto `start`, one after the other.
pub open spec fn pushed_all<V>(start: Seq<V>, items: Seq<V>) -> Seq<V>
    decreases items.len(),
{
    if items.len() == 0 {
        start
    } else {
        pushed_all(start, items.drop_last()).push(items.last())
    }
}

/// What a pass gives that starts with `remaining` left: the first item, then what a pass
/// gives that has the rest left.
pub open spec fn passed_over<V>(remaining: Seq<V>) -> Seq<V>
    decreases remaining.len(),
{
    if remaining.len() == 0 {
        Seq::empty()
    } else {
        seq![remaining[0]] + passed_over(remaining.skip(1))
    }
}

/// Pushing items one after the other puts them behind what was there, in push order.
pub proof fn lemma_pushed_all<V>(start: Seq<V>, items: Seq<V>)
    ensures
        pushed_all(start, items) == start + items,
    decreases items.len(),
{
    if items.len() == 0 {
        assert(start + items =~= start);
    } else {
        lemma_pushed_all(start, items.drop_last());
        assert((start + items.drop_last()).push(items.last()) =~= start + items);
    }
}

/// A pass gives every item that is left, in order, and nothing else.
pub proof fn lemma_passed_over<V>(remaining: Seq<V>)
    ensures
        passed_over(remaining) == remaining,
    decreases remaining.len(),
{
    if remaining.len() > 0 {
        lemma_passed_over(remaining.skip(1));
        assert(seq![remaining[0]] + remaining.skip(1) =~= remaining);
    } else {
        assert(remaining =~= Seq::<V>::empty());
    }
}

/// A pass over a group gives the items in the order in which they were pushed. The same
/// holds after another group was appended, after the group was cleared and filled again,
/// and of a slice: a pass gives just what the group holds then, in order.
pub proof fn lemma_pass_in_push_order<V>(
    pushed: Seq<V>,
    appended: Seq<V>,
    pushed_again: Seq<V>,
    start_index: int,
    end_index: int,
)
    requires
        0 <= start_index <= end_index <= pushed.len(),
    ensures
        passed_over(pushed_all(Seq::empty(), pushed)) == pushed,
        passed_over(pushed_all(Seq::empty(), pushed) + appended) == pushed + appended,
        passed_over(pushed_all(Seq::empty(), pushed_again)) == pushed_again,
        passed_over(pushed_all(Seq::empty(), pushed).subrange(start_index, end_index))
            == pushed.subrange(start_index, end_index),
        pushed.subrange(start_index, end_index).len() == end_index - start_index,
{
    lemma_pushed_all(Seq::<V>::empty(), pushed);
    lemma_pushed_all(Seq::<V>::empty(), pushed_again);
    assert(Seq::<V>::empty() + pushed =~= pushed);
    assert(Seq::<V>::empty() + pushed_again =~= pushed_again);
    lemma_passed_over(pushed);
    lemma_passed_over(pushed + appended);
    lemma_passed_over(pushed_again);
    lemma_passed_over(pushed.subrange(start_index, end_index));
}

/// Arguments that all decode as a `T`, each from one whole byte string, load as a group
/// of just as many items, the item at each place decoded from the argument at that place;
/// none is left. This holds of no argument, of one and of many.
pub proof fn lemma_load_all_well_formed<T: crate::codec::TopDecode>(
    args: Seq<Seq<u8>>,
    arg_id: Seq<u8>,
)
    requires
        forall|i: int| 0 <= i < args.len() ==> T::top_decoded(#[trigger] args[i]) is Ok,
    ensures
        load_all::<T>(args, arg_id).consumed == args.len(),
        load_all::<T>(args, arg_id).outcome == Ok::<Seq<T::V>, Seq<u8>>(
            args.map_values(|arg: Seq<u8>| T::top_decoded(arg)->Ok_0),
        ),
        load_all::<T>(args, arg_id).outcome->Ok_0.len() == args.len(),
    decreases args.len(),
{
    let decoded = args.map_values(|arg: Seq<u8>| T::top_decoded(arg)->Ok_0);
    if args.len() == 0 {
        assert(decoded =~= Seq::<T::V>::empty());
    } else {
        let rest = args.skip(1);
        assert forall|i: int| 0 <= i < rest.len() implies T::top_decoded(
            #[trigger] rest[i],
        ) is Ok by {
            assert(rest[i] == args[i + 1]);
        }
        lemma_load_all_well_formed::<T>(rest, arg_id);
        assert(T::top_decoded(args[0]) is Ok);
        assert(seq![decoded[0]] + rest.map_values(|arg: Seq<u8>| T::top_decoded(arg)->Ok_0)
            =~= decoded);
    }
}

/// Where an argument does not decode as a `T` and all before it do, loading the group
/// fails with the failure of that argument.
pub proof fn lemma_load_all_first_failure<T: crate::codec::TopDecode>(
    args: Seq<Seq<u8>>,
    arg_id: Seq<u8>,
    failing: int,
)
    requires
        0 <= failing < args.len(),
        forall|i: int| 0 <= i < failing ==> T::top_decoded(#[trigger] args[i]) is Ok,
        T::top_decoded(args[failing]) is Err,
    ensures
        load_all::<T>(args, arg_id).outcome == Err::<Seq<T::V>, Seq<u8>>(
            crate::err_msg::arg_decode_failure(arg_id, T::top_decoded(args[failing])->Err_0),
        ),
    decreases failing,
{
    if failing > 0 {
        let rest = args.skip(1);
        assert forall|i: int| 0 <= i < failing - 1 implies T::top_decoded(
            #[trigger] rest[i],
        ) is Ok by {
            assert(rest[i] == args[i + 1]);
        }
        assert(rest[failing - 1] == args[failing]);
        lemma_load_all_first_failure::<T>(rest, arg_id, failing - 1);
        assert(T::top_decoded(args[0]) is Ok);
    }
}

/// A group of `n` items, each encoded as one whole byte string, fills exactly `n` result
/// slots, and the slot at each place holds what the item at that place fills when it is
/// handed back alone. No count and no frame is added.
pub proof fn lemma_one_result_slot_each<T: crate::codec::TopEncode>(items: Seq<T::V>)
    ensures
        all_result_slots::<T>(items) == items.map_values(|value: T::V| T::top_encoded(value)),
        all_result_slots::<T>(items).len() == items.len(),
        forall|i: int|
            0 <= i < items.len() ==> seq![#[trigger] all_result_slots::<T>(items)[i]]
                == T::result_slots(items[i]),
    decreases items.len(),
{
    let single = items.map_values(|value: T::V| T::top_encoded(value));
    let slots = items.map_values(|value: T::V| T::result_slots(value));
    if items.len() == 0 {
        assert(slots =~= Seq::<Seq<Seq<u8>>>::empty());
        assert(all_result_slots::<T>(items) =~= single);
    } else {
        let front = items.drop_last();
        lemma_one_result_slot_each::<T>(front);
        let front_slots = front.map_values(|value: T::V| T::result_slots(value));
        assert(slots =~= front_slots.push(T::result_slots(items.last())));
        front_slots.lemma_flatten_push(T::result_slots(items.last()));
        assert(all_result_slots::<T>(items) =~= single);
    }
    assert forall|i: int| 0 <= i < items.len() implies seq![
        #[trigger] all_result_slots::<T>(items)[i],
    ] == T::result_slots(items[i]) by {
        assert(seq![single[i]] =~= T::result_slots(items[i]));
    }
}

/// A group of `n` items, each encoded as one whole byte string, fills exactly `n`
/// argument slots of an outgoing call, each as the item fills it alone.
pub proof fn lemma_one_arg_slot_each<T: crate::codec::TopEncode>(items: Seq<T::V>)
    ensures
        all_arg_slots::<T>(items) == items.map_values(|value: T::V| T::top_encoded(value)),
        all_arg_slots::<T>(items).len() == items.len(),
    decreases items.len(),
{
    let single = items.map_values(|value: T::V| T::top_encoded(value));
    let slots = items.map_values(|value: T::V| T::arg_slots(value));
    if items.len() == 0 {
        assert(slots =~= Seq::<Seq<Seq<u8>>>::empty());
        assert(all_arg_slots::<T>(items) =~= single);
    } else {
        let front = items.drop_last();
        lemma_one_arg_slot_each::<T>(front);
        let front_slots = front.map_values(|value: T::V| T::arg_slots(value));
        assert(slots =~= front_slots.push(T::arg_slots(items.last())));
        front_slots.lemma_flatten_push(T::arg_slots(items.last()));
        assert(all_arg_slots::<T>(items) =~= single);
    }
}

} // verus!
