use elrond_marshal::display_util::{big_uint_text, key_hex, text_of_bytes, verbose_hex};
use elrond_marshal::storage_get::StorageReadApi;
use elrond_marshal::types::{BigUint, StorageKey};
use elrond_marshal::world_mock::account_data::{
    compare_keys, AccountData, AccountStorage, KeyOrder,
};

#[test]
fn fresh_account_owns_nothing() {
    let account = AccountData::new(vec![3u8; 32]);
    assert_eq!(account.address, vec![3u8; 32]);
    assert_eq!(account.nonce, 0);
    assert_eq!(account.egld_balance.to_u64(), Some(0));
    assert_eq!(account.developer_rewards.to_u64(), Some(0));
    assert_eq!(account.storage.len(), 0);
    assert!(account.username.is_empty());
    assert_eq!(account.contract_path, None);
    assert_eq!(account.contract_owner, None);
}

#[test]
fn storage_keeps_the_last_value_written_under_a_key() {
    let mut storage = AccountStorage::new();
    assert_eq!(storage.get(b"a"), None);
    storage.insert(b"b".to_vec(), vec![1]);
    storage.insert(b"a".to_vec(), vec![2]);
    storage.insert(b"c".to_vec(), vec![3]);
    assert_eq!(storage.len(), 3);
    storage.insert(b"b".to_vec(), vec![4, 4]);
    assert_eq!(storage.len(), 3);
    assert_eq!(storage.get(b"a"), Some(&vec![2]));
    assert_eq!(storage.get(b"b"), Some(&vec![4, 4]));
    assert_eq!(storage.get(b"c"), Some(&vec![3]));
    assert_eq!(storage.get(b""), None);
    assert_eq!(storage.get(b"ab"), None);
    storage.insert(vec![], vec![]);
    assert_eq!(storage.get(b""), Some(&vec![]));
    assert_eq!(storage.len(), 4);
}

#[test]
fn storage_reads_through_every_operation_alike() {
    let mut account = AccountData::new(vec![0u8; 32]);
    account.storage_store(b"k", &[0, 1, 2]);
    let key = StorageKey::new(b"k");
    assert_eq!(account.storage_load_len(b"k"), 3);
    assert_eq!(account.storage_load_boxed_bytes(b"k"), vec![0, 1, 2]);
    assert_eq!(account.storage_load_managed_buffer(&key).to_vec(), vec![0, 1, 2]);
    assert_eq!(account.storage_load_managed_buffer_len(&key), 3);
    assert_eq!(account.storage_load_u64(b"k"), Some(258));
    assert_eq!(account.storage_load_i64(b"k"), Some(258));
    assert_eq!(account.storage_load_len(b"other"), 0);
    assert_eq!(account.storage_load_boxed_bytes(b"other"), Vec::<u8>::new());
    // writing under one key leaves the others as they were
    account.storage_store(b"other", &[9]);
    assert_eq!(account.storage_load_boxed_bytes(b"k"), vec![0, 1, 2]);
    assert_eq!(account.storage_load_boxed_bytes(b"other"), vec![9]);
}

#[test]
fn keys_compare_in_dictionary_order() {
    assert_eq!(compare_keys(b"", b""), KeyOrder::Same);
    assert_eq!(compare_keys(b"", b"a"), KeyOrder::Before);
    assert_eq!(compare_keys(b"a", b""), KeyOrder::After);
    assert_eq!(compare_keys(b"a", b"ab"), KeyOrder::Before);
    assert_eq!(compare_keys(b"ab", b"b"), KeyOrder::Before);
    assert_eq!(compare_keys(b"b", b"ab"), KeyOrder::After);
    assert_eq!(compare_keys(b"abc", b"abc"), KeyOrder::Same);
    assert_eq!(compare_keys(&[0xff], &[0x00, 0xff]), KeyOrder::After);
    let mut keys: Vec<Vec<u8>> = vec![b"b".to_vec(), b"".to_vec(), b"ab".to_vec(), b"a".to_vec()];
    keys.sort();
    for pair in keys.windows(2) {
        assert_eq!(compare_keys(&pair[0], &pair[1]), KeyOrder::Before);
    }
}

#[test]
fn bytes_as_hexadecimal_text() {
    assert_eq!(key_hex(&[]), "0x");
    assert_eq!(key_hex(&[1, 2, 3, 15, 16]), "0x0102030f10");
    assert_eq!(key_hex(b"Hello world!"), "0x48656c6c6f20776f726c6421");
    assert_eq!(verbose_hex(&[0xff, 0x00, 0xab]), "0xff00ab");
}

#[test]
fn storage_as_text_lists_the_slots_in_key_order() {
    let mut storage = AccountStorage::new();
    assert_eq!(storage.to_text(), "");
    storage.insert(b"b".to_vec(), vec![1]);
    storage.insert(b"a".to_vec(), vec![2, 0xff]);
    storage.insert(b"ab".to_vec(), vec![]);
    assert_eq!(
        storage.to_text(),
        "\n\t\t\t0x61 -> 0x02ff\n\t\t\t0x6162 -> 0x\n\t\t\t0x62 -> 0x01"
    );
    let mut expected = String::new();
    let mut entries: Vec<(Vec<u8>, Vec<u8>)> = vec![
        (b"b".to_vec(), vec![1]),
        (b"a".to_vec(), vec![2, 0xff]),
        (b"ab".to_vec(), vec![]),
    ];
    entries.sort();
    for (key, value) in entries {
        expected.push_str(&format!("\n\t\t\t0x{} -> 0x{}", hex::encode(&key), hex::encode(&value)));
    }
    assert_eq!(storage.to_text(), expected);
}

#[test]
fn account_as_text() {
    let mut account = AccountData::new(vec![0u8; 32]);
    account.nonce = 5;
    account.egld_balance = BigUint::from_bytes_be(&[0x03, 0xE8]);
    account.developer_rewards =
        BigUint::from_bytes_be(&[1, 0, 0, 0, 0, 0, 0, 0, 0, 0]);
    account.username = "alice\u{e9}".as_bytes().to_vec();
    account.storage_store(b"k", &[1]);
    account.storage_store(b"a", &[]);
    let expected = format!(
        "AccountData {{
		nonce: {},
		balance: {},
		esdt: [{} ],
		username: {},
		storage: [{} ],
		developerRewards: {},
	}}",
        5,
        1000,
        "\n\t\t\ttoken -> 7",
        "alice\u{e9}",
        "\n\t\t\t0x61 -> 0x\n\t\t\t0x6b -> 0x01",
        num_bigint::BigUint::from_bytes_be(&[1, 0, 0, 0, 0, 0, 0, 0, 0, 0])
    );
    assert_eq!(account.to_text("\n\t\t\ttoken -> 7"), Some(expected));
}

#[test]
fn fresh_account_as_text() {
    let account = AccountData::new(vec![0u8; 32]);
    assert_eq!(
        account.to_text(""),
        Some(String::from(
            "AccountData {\n\t\tnonce: 0,\n\t\tbalance: 0,\n\t\tesdt: [ ],\n\t\tusername: ,\n\t\tstorage: [ ],\n\t\tdeveloperRewards: 0,\n\t}"
        ))
    );
}

#[test]
fn account_with_a_user_name_that_is_no_text_has_no_text() {
    let mut account = AccountData::new(vec![0u8; 32]);
    account.username = vec![0, 159, 146, 150];
    assert_eq!(account.to_text(""), None);
    account.username = vec![0xff];
    assert_eq!(account.to_text("x"), None);
}

#[test]
fn numbers_in_decimal() {
    assert_eq!(big_uint_text(&BigUint::zero()), "0");
    assert_eq!(big_uint_text(&BigUint::from_bytes_be(&[9])), "9");
    assert_eq!(big_uint_text(&BigUint::from_bytes_be(&[10])), "10");
    assert_eq!(big_uint_text(&BigUint::from_bytes_be(&[0, 0x03, 0xE8])), "1000");
    assert_eq!(
        big_uint_text(&BigUint::from_bytes_be(b"Hello world!")),
        "22405534230753963835153736737"
    );
    assert_eq!(text_of_bytes(b"plain"), Some(String::from("plain")));
    assert_eq!(text_of_bytes(&[]), Some(String::new()));
    assert_eq!(text_of_bytes(&[0xc3, 0xa9]), Some(String::from("\u{e9}")));
    assert_eq!(text_of_bytes(&[0xc3]), None);
}

#[test]
fn a_copy_of_an_account_goes_its_own_way() {
    let mut account = AccountData::new(vec![1u8; 32]);
    account.storage_store(b"k", &[1]);
    account.nonce = 3;
    let copy = account.clone();
    assert_eq!(copy, account);
    account.storage_store(b"k", &[2]);
    assert_eq!(copy.storage_load_boxed_bytes(b"k"), vec![1]);
    assert_eq!(account.storage_load_boxed_bytes(b"k"), vec![2]);
    assert_ne!(copy, account);
    assert_eq!(copy.storage.clone().to_text(), "\n\t\t\t0x6b -> 0x01");
}
