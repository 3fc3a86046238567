use elrond_marshal::codec::{TopDecode, TopDecodeInput, TopEncode, TryStaticCast};
use elrond_marshal::types::{BigInt, BigUint, ManagedBuffer, NativeKind, NativeValue};

#[test]
fn u64_is_decoded_from_big_endian_bytes() {
    assert_eq!(u64::top_decode(vec![]).unwrap(), 0);
    assert_eq!(u64::top_decode(vec![5]).unwrap(), 5);
    assert_eq!(u64::top_decode(vec![1, 2]).unwrap(), 258);
    assert_eq!(u64::top_decode(vec![0, 0, 1, 2]).unwrap(), 258);
    assert_eq!(u64::top_decode(vec![0xff; 8]).unwrap(), u64::MAX);
}

#[test]
fn u64_keeps_the_last_eight_bytes_of_a_longer_string() {
    assert_eq!(u64::top_decode(vec![7, 0, 0, 0, 0, 0, 0, 0, 9]).unwrap(), 9);
    assert_eq!(u64::top_decode(vec![1, 2, 3, 0, 0, 0, 0, 0, 0, 1, 0]).unwrap(), 256);
}

#[test]
fn u32_refuses_what_is_too_wide() {
    assert_eq!(u32::top_decode(vec![0xff, 0xff, 0xff, 0xff]).unwrap(), u32::MAX);
    assert_eq!(u32::top_decode(vec![0, 0, 0, 0, 0, 7]).unwrap(), 7);
    let error = u32::top_decode(vec![1, 0, 0, 0, 0]).unwrap_err();
    assert_eq!(error.message, b"input too long".to_vec());
    assert_eq!(error.message_bytes(), b"input too long");
    // only the last eight bytes count
    assert_eq!(u32::top_decode(vec![1, 0, 0, 0, 0, 0, 0, 0, 7]).unwrap(), 7);
}

#[test]
fn i64_is_decoded_as_twos_complement() {
    assert_eq!(i64::top_decode(vec![]).unwrap(), 0);
    assert_eq!(i64::top_decode(vec![5]).unwrap(), 5);
    assert_eq!(i64::top_decode(vec![251]).unwrap(), -5);
    assert_eq!(i64::top_decode(vec![0xff, 0x7f]).unwrap(), -129);
    assert_eq!(i64::top_decode(vec![0x00, 0x80]).unwrap(), 128);
    assert_eq!(i64::top_decode(vec![0x80, 0, 0, 0, 0, 0, 0, 0]).unwrap(), i64::MIN);
    assert_eq!(i64::top_decode(vec![0x7f, 0xff, 0xff, 0xff, 0xff, 0xff, 0xff, 0xff]).unwrap(), i64::MAX);
    // a longer string: the last eight bytes alone count
    assert_eq!(i64::top_decode(vec![0x80, 0, 0, 0, 0, 0, 0, 0, 1]).unwrap(), 1);
    assert_eq!(i64::top_decode(vec![0x00, 0xff, 0xff, 0xff, 0xff, 0xff, 0xff, 0xff, 0xff]).unwrap(), -1);
}

#[test]
fn pair_takes_exactly_twelve_bytes() {
    assert_eq!(
        <(u32, u64)>::top_decode(vec![0, 0, 0, 1, 0, 0, 0, 0, 0, 0, 0, 2]).unwrap(),
        (1, 2)
    );
    assert_eq!(
        <(u32, u64)>::top_decode(vec![0xff; 12]).unwrap(),
        (u32::MAX, u64::MAX)
    );
    for short in 0..12usize {
        let error = <(u32, u64)>::top_decode(vec![1; short]).unwrap_err();
        assert_eq!(error.message, b"input too short".to_vec());
    }
    let error = <(u32, u64)>::top_decode(vec![0; 13]).unwrap_err();
    assert_eq!(error.message, b"input too long".to_vec());
}

#[test]
fn numbers_are_encoded_without_leading_bytes() {
    assert_eq!(0u64.top_encode(), Vec::<u8>::new());
    assert_eq!(5u64.top_encode(), vec![5]);
    assert_eq!(1000u64.top_encode(), vec![0x03, 0xE8]);
    assert_eq!(u64::MAX.top_encode(), vec![0xff; 8]);
    assert_eq!(0u32.top_encode(), Vec::<u8>::new());
    assert_eq!(256u32.top_encode(), vec![1, 0]);
    assert_eq!(u32::MAX.top_encode(), vec![0xff; 4]);
}

#[test]
fn signed_numbers_are_encoded_in_minimal_twos_complement() {
    assert_eq!(0i64.top_encode(), Vec::<u8>::new());
    assert_eq!(5i64.top_encode(), vec![5]);
    assert_eq!((-1i64).top_encode(), vec![0xff]);
    assert_eq!((-5i64).top_encode(), vec![251]);
    assert_eq!(127i64.top_encode(), vec![0x7f]);
    assert_eq!(128i64.top_encode(), vec![0x00, 0x80]);
    assert_eq!((-128i64).top_encode(), vec![0x80]);
    assert_eq!((-129i64).top_encode(), vec![0xff, 0x7f]);
    assert_eq!(255i64.top_encode(), vec![0x00, 0xff]);
    assert_eq!(i64::MIN.top_encode(), vec![0x80, 0, 0, 0, 0, 0, 0, 0]);
    assert_eq!(i64::MAX.top_encode(), vec![0x7f, 0xff, 0xff, 0xff, 0xff, 0xff, 0xff, 0xff]);
}

#[test]
fn pair_is_encoded_on_full_width() {
    assert_eq!((1u32, 2u64).top_encode(), vec![0, 0, 0, 1, 0, 0, 0, 0, 0, 0, 0, 2]);
    assert_eq!((0u32, 0u64).top_encode(), vec![0; 12]);
    assert_eq!((u32::MAX, u64::MAX).top_encode(), vec![0xff; 12]);
}

#[test]
fn what_is_encoded_decodes_to_itself() {
    for value in [0u64, 1, 255, 256, 1000, u32::MAX as u64, u64::MAX] {
        assert_eq!(u64::top_decode(value.top_encode()).unwrap(), value);
    }
    for value in [0u32, 1, 255, 256, 65535, 65536, u32::MAX] {
        assert_eq!(u32::top_decode(value.top_encode()).unwrap(), value);
    }
    for value in [0i64, 1, -1, 127, 128, -128, -129, 32767, -32769, i64::MIN, i64::MAX] {
        assert_eq!(i64::top_decode(value.top_encode()).unwrap(), value);
    }
    for pair in [(0u32, 0u64), (1, 2), (u32::MAX, u64::MAX), (0x01020304, 0x0102030405060708)] {
        assert_eq!(<(u32, u64)>::top_decode(pair.top_encode()).unwrap(), pair);
    }
}

#[test]
fn native_values_are_encoded_as_minimal_bytes() {
    assert_eq!(ManagedBuffer::new_from_bytes(&[0, 1, 0]).top_encode(), vec![0, 1, 0]);
    assert_eq!(ManagedBuffer::new().top_encode(), Vec::<u8>::new());
    assert_eq!(BigUint::zero().top_encode(), Vec::<u8>::new());
    assert_eq!(BigUint::from_bytes_be(&[0, 0, 3, 0xE8]).top_encode(), vec![3, 0xE8]);
    assert_eq!(BigInt::zero().top_encode(), Vec::<u8>::new());
    assert_eq!(BigInt::from_signed_bytes_be(&[0xff, 0xff, 0xff]).top_encode(), vec![0xff]);
    assert_eq!(BigInt::from_signed_bytes_be(&[0, 0, 0x80]).top_encode(), vec![0, 0x80]);
    assert_eq!(
        num_bigint::BigInt::from_signed_bytes_be(&[0, 0, 0x80]).to_signed_bytes_be(),
        BigInt::from_signed_bytes_be(&[0, 0, 0x80]).top_encode()
    );
    assert_eq!(
        num_bigint::BigUint::from_bytes_be(&[0, 0, 3, 0xE8]).to_bytes_be(),
        BigUint::from_bytes_be(&[0, 0, 3, 0xE8]).top_encode()
    );
}

#[test]
fn a_type_says_which_native_kind_it_is() {
    assert_eq!(ManagedBuffer::type_kind(), Some(NativeKind::Buffer));
    assert_eq!(BigUint::type_kind(), Some(NativeKind::BigUint));
    assert_eq!(BigInt::type_kind(), Some(NativeKind::BigInt));
}

#[test]
fn a_native_value_is_cast_to_its_own_type_only() {
    let buffer = NativeValue::Buffer(ManagedBuffer::new_from_bytes(&[1]));
    let unsigned = NativeValue::BigUint(BigUint::from_bytes_be(&[1]));
    let signed = NativeValue::BigInt(BigInt::from_signed_bytes_be(&[1]));
    assert_eq!(ManagedBuffer::try_cast(buffer.clone()), Some(ManagedBuffer::new_from_bytes(&[1])));
    assert_eq!(ManagedBuffer::try_cast(unsigned.clone()), None);
    assert_eq!(ManagedBuffer::try_cast(signed.clone()), None);
    assert_eq!(BigUint::try_cast(unsigned.clone()), Some(BigUint::from_bytes_be(&[1])));
    assert_eq!(BigUint::try_cast(buffer.clone()), None);
    assert_eq!(BigUint::try_cast(signed.clone()), None);
    assert_eq!(BigInt::try_cast(signed), Some(BigInt::from_signed_bytes_be(&[1])));
    assert_eq!(BigInt::try_cast(buffer), None);
    assert_eq!(BigInt::try_cast(unsigned), None);
}

#[test]
fn bytes_in_memory_are_an_input() {
    let bytes = vec![0u8, 0, 1, 0];
    assert_eq!(bytes.byte_len(), 4);
    assert_eq!(bytes.clone().into_boxed_slice_u8(), vec![0, 0, 1, 0]);
    assert_eq!(bytes.clone().into_u64(), Some(256));
    assert_eq!(bytes.clone().into_i64(), Some(256));
    assert_eq!(vec![0xffu8].into_i64(), Some(-1));
    assert_eq!(vec![0xffu8].into_u64(), Some(255));
    assert_eq!(vec![1u8, 0, 0, 0, 0, 0, 0, 0, 0].into_u64(), None);
    assert_eq!(vec![0u8, 0x80, 0, 0, 0, 0, 0, 0, 0].into_i64(), None);
    assert_eq!(vec![0u8, 0x7f, 0xff, 0xff, 0xff, 0xff, 0xff, 0xff, 0xff].into_i64(), Some(i64::MAX));
    let mut nested = bytes.into_nested_buffer();
    assert_eq!(nested.read_bytes(4).unwrap(), vec![0, 0, 1, 0]);
    assert!(nested.is_depleted());
}

#[test]
fn big_integers_as_machine_integers() {
    assert_eq!(BigUint::from_bytes_be(&[0xff; 8]).to_u64(), Some(u64::MAX));
    assert_eq!(BigUint::from_bytes_be(&[1, 0, 0, 0, 0, 0, 0, 0, 0]).to_u64(), None);
    assert_eq!(BigUint::from_bytes_be(&[]).to_u64(), Some(0));
    assert_eq!(BigInt::from_signed_bytes_be(&[0x80, 0, 0, 0, 0, 0, 0, 0]).to_i64(), Some(i64::MIN));
    assert_eq!(BigInt::from_signed_bytes_be(&[0xff, 0x7f, 0xff, 0xff, 0xff, 0xff, 0xff, 0xff, 0xff]).to_i64(), None);
    assert_eq!(BigInt::from_signed_bytes_be(&[0, 0x80, 0, 0, 0, 0, 0, 0, 0]).to_i64(), None);
    assert_eq!(BigUint::from_bytes_be(&[1, 2]).clone(), BigUint::from_bytes_be(&[0, 1, 2]));
    assert_eq!(BigInt::from_signed_bytes_be(&[0xff, 0x02]).duplicate().to_i64(), Some(-254));
}
