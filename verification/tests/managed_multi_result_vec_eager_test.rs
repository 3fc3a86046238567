use elrond_marshal::abi::{TypeAbi, TypeDescriptionContainer};
use elrond_marshal::api::{DynArgInput, DynArgOutput, EndpointFinishApi};
use elrond_marshal::io::{dyn_load_exit, ContractCallArg, DynArg, EndpointResult};
use elrond_marshal::managed_from::{ManagedFrom, ManagedInto};
use elrond_marshal::managed_multi_result_vec_eager::{
    ManagedMultiResultVecEager, ManagedVarArgsEager,
};
use elrond_marshal::types::{ArgId, BigInt, BigUint, DecodeError, ManagedBuffer};
use elrond_marshal::world_mock::tx_mock::{
    ArgBuffer, TxInput, TxResult, TypeDescriptionContainerImpl,
};

fn group_of(items: &[u64]) -> ManagedMultiResultVecEager<u64> {
    let mut group = ManagedMultiResultVecEager::new();
    for item in items {
        group.push(*item);
    }
    group
}

fn passed_over(group: &ManagedMultiResultVecEager<u64>) -> Vec<u64> {
    let mut seen = Vec::new();
    let mut pass = group.iter();
    while let Some(item) = pass.next() {
        seen.push(item);
    }
    assert_eq!(pass.next(), None);
    seen
}

#[test]
fn new_group_is_empty() {
    let group: ManagedMultiResultVecEager<u64> = ManagedMultiResultVecEager::new();
    assert_eq!(group.len(), 0);
    assert!(group.is_empty());
    assert_eq!(group.byte_len(), 0);
    assert_eq!(group.get(0), None);
    assert_eq!(passed_over(&group), Vec::<u64>::new());
}

#[test]
fn items_come_out_in_push_order() {
    let group = group_of(&[30, 10, 20, 10]);
    assert_eq!(group.len(), 4);
    assert!(!group.is_empty());
    assert_eq!(passed_over(&group), vec![30, 10, 20, 10]);
    // a second pass gives the same again
    assert_eq!(passed_over(&group), vec![30, 10, 20, 10]);
    assert_eq!(group.into_vec(), vec![30, 10, 20, 10]);
}

#[test]
fn order_holds_after_append_clear_and_slice() {
    let mut group = group_of(&[1, 2, 3]);
    group.append_vec(group_of(&[4, 5]));
    assert_eq!(passed_over(&group), vec![1, 2, 3, 4, 5]);
    group.append_vec(group_of(&[]));
    assert_eq!(passed_over(&group), vec![1, 2, 3, 4, 5]);
    // appending does not merge: an item that is there already is added again
    group.append_vec(group_of(&[1, 1]));
    assert_eq!(passed_over(&group), vec![1, 2, 3, 4, 5, 1, 1]);
    let part = group.slice(1, 4).unwrap();
    assert_eq!(passed_over(&part), vec![2, 3, 4]);
    assert_eq!(passed_over(&group), vec![1, 2, 3, 4, 5, 1, 1]);
    group.clear();
    assert!(group.is_empty());
    assert_eq!(passed_over(&group), Vec::<u64>::new());
    group.push(9);
    group.push(8);
    assert_eq!(passed_over(&group), vec![9, 8]);
}

#[test]
fn get_is_checked_against_the_length() {
    let group = group_of(&[5, 6, 7]);
    assert_eq!(group.get(0), Some(5));
    assert_eq!(group.get(2), Some(7));
    assert_eq!(group.get(3), None);
    assert_eq!(group.get(usize::MAX), None);
}

#[test]
fn slice_within_bounds_holds_just_those_items() {
    let group = group_of(&[10, 11, 12, 13, 14]);
    for start in 0..=5usize {
        for end in start..=5usize {
            let part = group.slice(start, end).unwrap();
            assert_eq!(part.len(), end - start);
            assert_eq!(part.into_vec(), (10 + start as u64..10 + end as u64).collect::<Vec<u64>>());
        }
    }
}

#[test]
fn slice_out_of_bounds_gives_nothing() {
    let group = group_of(&[10, 11, 12]);
    assert!(group.slice(2, 1).is_none());
    assert!(group.slice(0, 4).is_none());
    assert!(group.slice(4, 4).is_none());
    assert!(group.slice(3, 2).is_none());
    assert!(group.slice(usize::MAX, 0).is_none());
    assert!(group.slice(0, usize::MAX).is_none());
    assert!(group.slice(3, 3).unwrap().is_empty());
    let empty = group_of(&[]);
    assert!(empty.slice(0, 0).unwrap().is_empty());
    assert!(empty.slice(0, 1).is_none());
}

#[test]
fn single_item_constructors() {
    let group = ManagedMultiResultVecEager::from_single_item(7u64);
    assert_eq!(group.len(), 1);
    assert_eq!(group.get(0), Some(7));
    let mut group = group_of(&[1, 2, 3]);
    group.overwrite_with_single_item(9);
    assert_eq!(group.into_vec(), vec![9]);
    let mut empty = group_of(&[]);
    empty.overwrite_with_single_item(4);
    assert_eq!(empty.into_vec(), vec![4]);
}

#[test]
fn byte_len_is_the_number_of_items_times_the_payload() {
    assert_eq!(group_of(&[1, 2, 3]).byte_len(), 24);
    let mut small: ManagedMultiResultVecEager<u32> = ManagedMultiResultVecEager::new();
    small.push(1);
    small.push(2);
    assert_eq!(small.byte_len(), 8);
    let mut bytes: ManagedMultiResultVecEager<u8> = ManagedMultiResultVecEager::new();
    bytes.push(1);
    assert_eq!(bytes.byte_len(), 1);
    let mut buffers: ManagedMultiResultVecEager<ManagedBuffer> = ManagedMultiResultVecEager::new();
    buffers.push(ManagedBuffer::new_from_bytes(b"a long buffer that is held by the host"));
    buffers.push(ManagedBuffer::new());
    buffers.push(ManagedBuffer::new_from_bytes(b"x"));
    assert_eq!(buffers.byte_len(), 12);
    let mut numbers: ManagedMultiResultVecEager<BigUint> = ManagedMultiResultVecEager::new();
    numbers.push(BigUint::from_bytes_be(&[1; 40]));
    assert_eq!(numbers.byte_len(), 4);
    let mut signed: ManagedMultiResultVecEager<BigInt> = ManagedMultiResultVecEager::new();
    signed.push(BigInt::from_signed_bytes_be(&[0xff]));
    signed.push(BigInt::zero());
    assert_eq!(signed.byte_len(), 8);
    let mut machine: ManagedVarArgsEager<i64> = ManagedVarArgsEager::new();
    machine.push(-1);
    assert_eq!(machine.byte_len(), 8);
}

#[test]
fn group_from_a_plain_vector() {
    let group: ManagedMultiResultVecEager<u64> = ManagedMultiResultVecEager::from(vec![3, 1, 2]);
    assert_eq!(group.into_vec(), vec![3, 1, 2]);
}

#[test]
fn with_self_as_vec_keeps_what_the_closure_leaves() {
    let mut group = group_of(&[3, 1, 2]);
    group.with_self_as_vec(|items| items.sort());
    assert_eq!(passed_over(&group), vec![1, 2, 3]);
    group.with_self_as_vec(|items| {
        items.pop();
        items.insert(0, 0);
    });
    assert_eq!(passed_over(&group), vec![0, 1, 2]);
}

#[test]
fn managed_from_converts_each_item_in_order() {
    let plain: Vec<Vec<u8>> = vec![b"one".to_vec(), vec![], b"three".to_vec()];
    let group: ManagedMultiResultVecEager<ManagedBuffer> =
        ManagedMultiResultVecEager::managed_from(plain);
    assert_eq!(group.len(), 3);
    assert_eq!(group.get(0).unwrap().to_vec(), b"one".to_vec());
    assert_eq!(group.get(1).unwrap().to_vec(), Vec::<u8>::new());
    assert_eq!(group.get(2).unwrap().to_vec(), b"three".to_vec());

    let widened: ManagedMultiResultVecEager<u64> =
        ManagedMultiResultVecEager::managed_from(vec![u32::MAX, 0, 7]);
    assert_eq!(widened.into_vec(), vec![u32::MAX as u64, 0, 7]);

    let numbers: ManagedMultiResultVecEager<BigUint> = ManagedMultiResultVecEager::managed_from(
        vec![ManagedBuffer::new_from_bytes(&[0, 1, 0]), ManagedBuffer::new()],
    );
    assert_eq!(numbers.get(0).unwrap().to_u64(), Some(256));
    assert_eq!(numbers.get(1).unwrap().to_u64(), Some(0));

    let none: ManagedMultiResultVecEager<u64> =
        ManagedMultiResultVecEager::managed_from(Vec::<u32>::new());
    assert!(none.is_empty());
    let single: ManagedBuffer = vec![1u8, 2].managed_into();
    assert_eq!(single.to_vec(), vec![1, 2]);
}

#[test]
fn three_buffers_are_loaded_in_order_and_no_fourth_is_tried() {
    let mut input = TxInput::new(vec![b"first".to_vec(), vec![], b"third".to_vec()]);
    let group: ManagedMultiResultVecEager<ManagedBuffer> =
        ManagedMultiResultVecEager::dyn_load(&mut input, ArgId::new("items")).unwrap();
    assert_eq!(group.len(), 3);
    assert_eq!(group.get(0).unwrap().to_vec(), b"first".to_vec());
    assert_eq!(group.get(1).unwrap().to_vec(), Vec::<u8>::new());
    assert_eq!(group.get(2).unwrap().to_vec(), b"third".to_vec());
    assert_eq!(group.get(3), None);
    assert!(!input.has_next());
    assert_eq!(input.next_arg_input(), None);
}

#[test]
fn loading_takes_as_many_items_as_there_are_arguments() {
    for n in [0usize, 1, 2, 17] {
        let args: Vec<Vec<u8>> = (0..n).map(|i| vec![i as u8 + 1]).collect();
        let mut input = TxInput::new(args);
        let group: ManagedMultiResultVecEager<u64> =
            ManagedMultiResultVecEager::dyn_load(&mut input, ArgId::new("n")).unwrap();
        assert_eq!(group.len(), n);
        assert_eq!(group.into_vec(), (1..=n as u64).collect::<Vec<u64>>());
        assert!(!input.has_next());
    }
}

#[test]
fn loading_starts_where_earlier_loads_stopped() {
    let mut input = TxInput::new(vec![vec![1], vec![2, 0], vec![3], vec![4]]);
    let first = u64::dyn_load(&mut input, ArgId::new("first")).unwrap();
    let second = BigUint::dyn_load(&mut input, ArgId::new("second")).unwrap();
    assert!(input.has_next());
    let rest: ManagedMultiResultVecEager<u64> =
        ManagedMultiResultVecEager::dyn_load(&mut input, ArgId::new("rest")).unwrap();
    assert_eq!(first, 1);
    assert_eq!(second.to_u64(), Some(512));
    assert_eq!(rest.into_vec(), vec![3, 4]);
    assert!(!input.has_next());
    // with nothing left, a group is empty and a single value is missing
    let none: ManagedMultiResultVecEager<u64> =
        ManagedMultiResultVecEager::dyn_load(&mut input, ArgId::new("none")).unwrap();
    assert!(none.is_empty());
    let missing = u64::dyn_load(&mut input, ArgId::new("missing")).unwrap_err();
    assert_eq!(missing.message, b"wrong number of arguments".to_vec());
}

#[test]
fn malformed_argument_ends_the_load_with_its_name_and_complaint() {
    let mut input = TxInput::new(vec![vec![1], vec![1, 0, 0, 0, 0], vec![3]]);
    let outcome: Result<ManagedMultiResultVecEager<u32>, _> =
        ManagedMultiResultVecEager::dyn_load(&mut input, ArgId::new("amounts"));
    let failure = outcome.err().unwrap();
    assert_eq!(
        failure.message,
        b"argument decode error (amounts): input too long".to_vec()
    );
    let mut input = TxInput::new(vec![vec![0; 11]]);
    let failure = <(u32, u64)>::dyn_load(&mut input, ArgId::new("pair")).unwrap_err();
    assert_eq!(
        failure.message,
        b"argument decode error (pair): input too short".to_vec()
    );
}

#[test]
fn dyn_load_exit_names_the_argument() {
    let failure = dyn_load_exit(
        ArgId::new("to"),
        DecodeError { message: b"invalid value".to_vec() },
    );
    assert_eq!(failure.message, b"argument decode error (to): invalid value".to_vec());
    assert_eq!(ArgId::new("to").as_bytes(), b"to");
}

#[test]
fn empty_group_as_result_gives_no_slot() {
    let group: ManagedMultiResultVecEager<u64> = ManagedMultiResultVecEager::new();
    let mut result = TxResult::new();
    group.finish(&mut result);
    assert_eq!(result.into_vec(), Vec::<Vec<u8>>::new());
}

#[test]
fn each_item_fills_one_result_slot_as_it_does_alone() {
    let items = [0u64, 1000, 5, u64::MAX];
    let group = group_of(&items);
    let mut result = TxResult::new();
    group.finish(&mut result);
    let slots = result.into_vec();
    assert_eq!(slots.len(), items.len());
    for (slot, item) in slots.iter().zip(items.iter()) {
        let mut alone = TxResult::new();
        item.finish(&mut alone);
        assert_eq!(alone.into_vec(), vec![slot.clone()]);
    }
    assert_eq!(slots, vec![vec![], vec![0x03, 0xE8], vec![5], vec![0xff; 8]]);
}

#[test]
fn results_go_after_what_was_handed_back_before() {
    let mut result = TxResult::new();
    result.finish_slice_u8(b"before");
    let mut buffers: ManagedMultiResultVecEager<ManagedBuffer> = ManagedMultiResultVecEager::new();
    buffers.push(ManagedBuffer::new_from_bytes(b"a"));
    buffers.push(ManagedBuffer::new_from_bytes(b""));
    buffers.finish(&mut result);
    BigInt::from_signed_bytes_be(&[0xff, 0xff]).finish(&mut result);
    assert_eq!(
        result.into_vec(),
        vec![b"before".to_vec(), b"a".to_vec(), vec![], vec![0xff]]
    );
}

#[test]
fn each_item_fills_one_argument_slot_of_an_outgoing_call() {
    let mut output = ArgBuffer::new();
    7u32.push_dyn_arg(&mut output);
    let mut numbers: ManagedMultiResultVecEager<BigUint> = ManagedMultiResultVecEager::new();
    numbers.push(BigUint::from_bytes_be(&[0, 1, 0]));
    numbers.push(BigUint::zero());
    numbers.push_dyn_arg(&mut output);
    let empty: ManagedMultiResultVecEager<u64> = ManagedMultiResultVecEager::new();
    empty.push_dyn_arg(&mut output);
    output.push_single_arg(b"raw".to_vec());
    let group = group_of(&[258]);
    <&ManagedMultiResultVecEager<u64> as ContractCallArg>::push_dyn_arg(&&group, &mut output);
    assert_eq!(
        output.into_vec(),
        vec![vec![7], vec![1, 0], vec![], b"raw".to_vec(), vec![1, 2]]
    );
}

#[test]
fn what_is_handed_back_loads_as_the_same_group() {
    let group = group_of(&[0, 1, 256, u64::MAX]);
    let mut result = TxResult::new();
    group.finish(&mut result);
    let mut input = TxInput::new(result.into_vec());
    let back: ManagedMultiResultVecEager<u64> =
        ManagedMultiResultVecEager::dyn_load(&mut input, ArgId::new("back")).unwrap();
    assert_eq!(back.into_vec(), vec![0, 1, 256, u64::MAX]);
}

#[test]
fn group_names_itself_after_its_item_type() {
    assert_eq!(ManagedMultiResultVecEager::<u64>::abi_type_name(), "variadic<u64>");
    assert_eq!(ManagedMultiResultVecEager::<u32>::abi_type_name(), "variadic<u32>");
    assert_eq!(ManagedMultiResultVecEager::<i64>::abi_type_name(), "variadic<i64>");
    assert_eq!(
        ManagedMultiResultVecEager::<ManagedBuffer>::abi_type_name(),
        "variadic<bytes>"
    );
    assert_eq!(
        ManagedMultiResultVecEager::<BigUint>::abi_type_name(),
        "variadic<BigUint>"
    );
    assert_eq!(
        ManagedMultiResultVecEager::<BigInt>::abi_type_name(),
        "variadic<BigInt>"
    );
    assert_eq!(u64::abi_type_name(), "u64");
}

#[test]
fn group_stands_for_any_number_of_slots() {
    assert!(ManagedMultiResultVecEager::<u64>::is_multi_arg_or_result());
    assert!(ManagedMultiResultVecEager::<ManagedBuffer>::is_multi_arg_or_result());
    assert!(!u64::is_multi_arg_or_result());
    assert!(!ManagedBuffer::is_multi_arg_or_result());
    assert!(!BigUint::is_multi_arg_or_result());
}

#[test]
fn group_leaves_descriptions_to_its_item_type() {
    let mut accumulator = TypeDescriptionContainerImpl::new();
    accumulator.insert(String::from("Deposit"));
    ManagedMultiResultVecEager::<u64>::provide_type_descriptions(&mut accumulator);
    ManagedMultiResultVecEager::<BigUint>::provide_type_descriptions(&mut accumulator);
    assert!(accumulator.contains_type("Deposit"));
    assert!(!accumulator.contains_type("u64"));
    assert!(!accumulator.contains_type("variadic<u64>"));
    accumulator.insert(String::from("u64"));
    assert!(accumulator.contains_type("u64"));
    assert!(accumulator.contains_type("Deposit"));
}

#[test]
fn a_copy_of_a_group_goes_its_own_way() {
    let mut group = group_of(&[1, 2]);
    let copy = group.clone();
    group.push(3);
    assert_eq!(passed_over(&copy), vec![1, 2]);
    assert_eq!(passed_over(&group), vec![1, 2, 3]);
    let mut merged = copy.clone();
    merged.append_vec(group);
    assert_eq!(passed_over(&merged), vec![1, 2, 1, 2, 3]);
    assert_eq!(passed_over(&copy), vec![1, 2]);
}
