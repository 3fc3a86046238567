//! An account in memory: what it owns, and the storage that a contract reads and writes.
use crate::big_endian::{bytes_as_i64, bytes_as_u64, bytes_to_vec};
use crate::codec::TopEncode;
use crate::display_util::{
    big_uint_text, decimal_text, key_hex, key_hex_text, text_of_bytes, verbose_hex,
};
use vstd::utf8::{decode_utf8, valid_utf8};
use crate::storage_get::StorageReadApi;
use crate::types::{BigUint, ManagedBuffer, StorageKey};
use vstd::prelude::*;
use vstd::string::StringExecFns;

verus! {

/// Byte strings in dictionary order: a string comes before another where its byte is the
/// lower one at the first place at which the two differ, or where it is the shorter one and
/// the other goes on from it.
pub open spec fn lex_less(a: Seq<u8>, b: Seq<u8>) -> bool
    decreases a.len(),
{
    if b.len() == 0 {
        false
    } else if a.len() == 0 {
        true
    } else if a[0] != b[0] {
        a[0] < b[0]
    } else {
        lex_less(a.skip(1), b.skip(1))
    }
}

pub proof fn lemma_lex_less_irreflexive(a: Seq<u8>)
    ensures
        !lex_less(a, a),
    decreases a.len(),
{
    if a.len() > 0 {
        lemma_lex_less_irreflexive(a.skip(1));
    }
}

pub proof fn lemma_lex_less_transitive(a: Seq<u8>, b: Seq<u8>, c: Seq<u8>)
    requires
        lex_less(a, b),
        lex_less(b, c),
    ensures
        lex_less(a, c),
    decreases a.len(),
{
    if a.len() > 0 && a[0] == b[0] && b[0] == c[0] {
        lemma_lex_less_transitive(a.skip(1), b.skip(1), c.skip(1));
    }
}

/// Two strings that agree on their first `n` bytes compare as what follows.
pub proof fn lemma_lex_less_after_prefix(a: Seq<u8>, b: Seq<u8>, n: int)
    requires
        0 <= n <= a.len(),
        n <= b.len(),
        a.take(n) == b.take(n),
    ensures
        lex_less(a, b) == lex_less(a.skip(n), b.skip(n)),
    decreases n,
{
    if n == 0 {
        assert(a.skip(0) =~= a);
        assert(b.skip(0) =~= b);
    } else {
        assert(a[0] == a.take(n)[0]);
        assert(b[0] == b.take(n)[0]);
        assert(a.skip(1).take(n - 1) =~= a.take(n).skip(1));
        assert(b.skip(1).take(n - 1) =~= b.take(n).skip(1));
        lemma_lex_less_after_prefix(a.skip(1), b.skip(1), n - 1);
        assert(a.skip(1).skip(n - 1) =~= a.skip(n));
        assert(b.skip(1).skip(n - 1) =~= b.skip(n));
    }
}

/// How one key stands to another.
#[derive(Clone, Copy, Debug, PartialEq, Eq, Structural)]
pub enum KeyOrder {
    Before,
    Same,
    After,
}

/// Compares two keys in dictionary order.
pub fn compare_keys(a: &[u8], b: &[u8]) -> (order: KeyOrder)
    ensures
        match order {
            KeyOrder::Before => lex_less(a@, b@),
            KeyOrder::Same => a@ == b@,
            KeyOrder::After => lex_less(b@, a@),
        },
{
    let mut i: usize = 0;
    assert(a@.take(0) =~= b@.take(0));
    while i < a.len() && i < b.len()
        invariant
            i <= a@.len(),
            i <= b@.len(),
            a@.take(i as int) == b@.take(i as int),
        decreases a@.len() - i,
    {
        proof {
            lemma_lex_less_after_prefix(a@, b@, i as int);
            lemma_lex_less_after_prefix(b@, a@, i as int);
        }
        if a[i] < b[i] {
            return KeyOrder::Before;
        }
        if a[i] > b[i] {
            return KeyOrder::After;
        }
        assert(a@.take(i + 1) =~= a@.take(i as int).push(a@[i as int]));
        assert(b@.take(i + 1) =~= b@.take(i as int).push(b@[i as int]));
        i += 1;
    }
    proof {
        lemma_lex_less_after_prefix(a@, b@, i as int);
        lemma_lex_less_after_prefix(b@, a@, i as int);
    }
    if a.len() < b.len() {
        KeyOrder::Before
    } else if a.len() > b.len() {
        KeyOrder::After
    } else {
        assert(a@.take(a@.len() as int) =~= a@);
        assert(b@.take(b@.len() as int) =~= b@);
        KeyOrder::Same
    }
}

/// One slot that holds something: its key and its value.
#[derive(Clone, Debug, PartialEq, Eq)]
pub struct StorageEntry {
    pub key: Vec<u8>,
    pub value: Vec<u8>,
}

/// The keys and values of a sequence of entries, one for one.
pub open spec fn entry_pairs(entries: Seq<StorageEntry>) -> Seq<(Seq<u8>, Seq<u8>)> {
    entries.map_values(|entry: StorageEntry| (entry.key@, entry.value@))
}

/// Every key comes before the keys after it: the keys are in dictionary order, and none
/// occurs twice.
pub open spec fn keys_ascending(pairs: Seq<(Seq<u8>, Seq<u8>)>) -> bool {
    forall|i: int, j: int| 0 <= i < j < pairs.len() ==> lex_less(#[trigger] pairs[i].0, #[trigger] pairs[j].0)
}

/// Whether `key` is the key of one of `pairs`.
pub open spec fn has_key(pairs: Seq<(Seq<u8>, Seq<u8>)>, key: Seq<u8>) -> bool {
    exists|i: int| 0 <= i < pairs.len() && (#[trigger] pairs[i]).0 == key
}

/// The map that a sequence of keys and values stands for.
pub open spec fn pairs_map(pairs: Seq<(Seq<u8>, Seq<u8>)>) -> Map<Seq<u8>, Seq<u8>> {
    Map::new(
        |key: Seq<u8>| has_key(pairs, key),
        |key: Seq<u8>| pairs[choose|i: int| 0 <= i < pairs.len() && (#[trigger] pairs[i]).0 == key].1,
    )
}

/// With keys in order, each pair is what the map holds for its key.
pub proof fn lemma_pairs_map_at(pairs: Seq<(Seq<u8>, Seq<u8>)>, i: int)
    requires
        keys_ascending(pairs),
        0 <= i < pairs.len(),
    ensures
        pairs_map(pairs).contains_key(pairs[i].0),
        pairs_map(pairs)[pairs[i].0] == pairs[i].1,
{
    let key = pairs[i].0;
    let j = choose|j: int| 0 <= j < pairs.len() && (#[trigger] pairs[j]).0 == key;
    lemma_lex_less_irreflexive(key);
    if j < i {
        assert(lex_less(pairs[j].0, pairs[i].0));
    } else if i < j {
        assert(lex_less(pairs[i].0, pairs[j].0));
    }
}

/// One slot as a line of text: a line break and three tabs, the key, an arrow, the value.
pub open spec fn storage_line(key: Seq<u8>, value: Seq<u8>) -> Seq<char> {
    "\n\t\t\t"@ + key_hex_text(key) + " -> "@ + key_hex_text(value)
}

/// The slots as text, one line to the slot, in the order given.
pub open spec fn storage_lines(pairs: Seq<(Seq<u8>, Seq<u8>)>) -> Seq<char>
    decreases pairs.len(),
{
    if pairs.len() == 0 {
        Seq::empty()
    } else {
        storage_lines(pairs.drop_last()) + storage_line(pairs.last().0, pairs.last().1)
    }
}

/// The bytes that `slots` keeps under `key`: empty where the key holds nothing.
pub open spec fn slot_value(slots: Map<Seq<u8>, Seq<u8>>, key: Seq<u8>) -> Seq<u8> {
    if slots.contains_key(key) {
        slots[key]
    } else {
        Seq::empty()
    }
}

/// A key reads as what was last written under it, in its full length, and a write under
/// one key leaves every other key as it was. Without a write in between, two reads of a
/// key give the same bytes.
pub proof fn lemma_read_after_write(
    slots: Map<Seq<u8>, Seq<u8>>,
    key: Seq<u8>,
    value: Seq<u8>,
    other: Seq<u8>,
)
    ensures
        slot_value(slots.insert(key, value), key) == value,
        slot_value(slots.insert(key, value), key).len() == value.len(),
        other != key ==> slot_value(slots.insert(key, value), other) == slot_value(slots, other),
{
}

/// The storage of an account: the slots that hold something, kept in the order of their
/// keys. Its view is the map from each key to its value.
#[derive(Debug, PartialEq, Eq)]
pub struct AccountStorage {
    entries: Vec<StorageEntry>,
}

impl View for AccountStorage {
    type V = Map<Seq<u8>, Seq<u8>>;

    open spec fn view(&self) -> Map<Seq<u8>, Seq<u8>> {
        pairs_map(self.pairs())
    }
}

impl AccountStorage {
    #[verifier::type_invariant]
    spec fn ordered(self) -> bool {
        keys_ascending(entry_pairs(self.entries@))
    }

    /// The slots as keys and values, in the order of the keys.
    pub closed spec fn pairs(&self) -> Seq<(Seq<u8>, Seq<u8>)> {
        entry_pairs(self.entries@)
    }

    /// The bytes kept under `key`: empty where the key holds nothing.
    pub open spec fn value_at(&self, key: Seq<u8>) -> Seq<u8> {
        slot_value(self@, key)
    }

    /// Storage that holds nothing.
    pub fn new() -> (storage: Self)
        ensures
            storage@ == Map::<Seq<u8>, Seq<u8>>::empty(),
            storage.pairs() == Seq::<(Seq<u8>, Seq<u8>)>::empty(),
    {
        let storage = AccountStorage { entries: Vec::new() };
        assert(storage.pairs() =~= Seq::<(Seq<u8>, Seq<u8>)>::empty());
        assert(storage@ =~= Map::<Seq<u8>, Seq<u8>>::empty());
        storage
    }

    /// The number of slots that hold something.
    pub fn len(&self) -> (len: usize)
        ensures
            len == self.pairs().len(),
    {
        self.entries.len()
    }

    /// Where `key` stands among the slots: the number of slots whose key comes before it,
    /// and whether the slot at that place is its own.
    fn locate(&self, key: &[u8]) -> (place: (usize, bool))
        ensures
            keys_ascending(self.pairs()),
            place.0 <= self.pairs().len(),
            forall|i: int| 0 <= i < place.0 ==> lex_less((#[trigger] self.pairs()[i]).0, key@),
            place.1 ==> place.0 < self.pairs().len() && self.pairs()[place.0 as int].0 == key@,
            !place.1 ==> forall|i: int|
                place.0 <= i < self.pairs().len() ==> lex_less(key@, (#[trigger] self.pairs()[i]).0),
            place.1 == has_key(self.pairs(), key@),
    {
        proof {
            use_type_invariant(self);
        }
        let mut index: usize = 0;
        let mut found = false;
        while index < self.entries.len()
            invariant_except_break
                !found,
            invariant
                keys_ascending(self.pairs()),
                index <= self.entries@.len(),
                forall|i: int| 0 <= i < index ==> lex_less((#[trigger] self.pairs()[i]).0, key@),
            ensures
                index <= self.entries@.len(),
                found ==> index < self.pairs().len() && self.pairs()[index as int].0 == key@,
                !found ==> forall|i: int|
                    index <= i < self.pairs().len() ==> lex_less(
                        key@,
                        (#[trigger] self.pairs()[i]).0,
                    ),
            decreases self.entries@.len() - index,
        {
            let order = compare_keys(self.entries[index].key.as_slice(), key);
            assert(self.pairs()[index as int].0 == self.entries@[index as int].key@);
            match order {
                KeyOrder::Before => {
                    index += 1;
                },
                KeyOrder::Same => {
                    found = true;
                    break ;
                },
                KeyOrder::After => {
                    assert forall|i: int| index <= i < self.pairs().len() implies lex_less(
                        key@,
                        (#[trigger] self.pairs()[i]).0,
                    ) by {
                        if i > index {
                            lemma_lex_less_transitive(
                                key@,
                                self.pairs()[index as int].0,
                                self.pairs()[i].0,
                            );
                        }
                    }
                    break ;
                },
            }
        }
        proof {
            if !found {
                assert forall|i: int| 0 <= i < self.pairs().len() implies (
                #[trigger] self.pairs()[i]).0 != key@ by {
                    lemma_lex_less_irreflexive(key@);
                }
            }
        }
        (index, found)
    }

    /// The slots as text, one line to the slot, in the dictionary order of the keys.
    pub fn to_text(&self) -> (text: String)
        ensures
            text@ == storage_lines(self.pairs()),
            keys_ascending(self.pairs()),
    {
        proof {
            use_type_invariant(self);
        }
        let mut storage_buf = String::new();
        let mut index: usize = 0;
        assert(self.pairs().take(0) =~= Seq::<(Seq<u8>, Seq<u8>)>::empty());
        while index < self.entries.len()
            invariant
                index <= self.entries@.len(),
                storage_buf@ == storage_lines(self.pairs().take(index as int)),
            decreases self.entries@.len() - index,
        {
            let entry = &self.entries[index];
            let ghost done = storage_buf@;
            let ghost next = self.pairs().take(index + 1);
            proof {
                assert(next.drop_last() =~= self.pairs().take(index as int));
                assert(next.last() == (entry.key@, entry.value@));
            }
            storage_buf.append("\n\t\t\t");
            storage_buf.append(key_hex(entry.key.as_slice()).as_str());
            storage_buf.append(" -> ");
            storage_buf.append(verbose_hex(entry.value.as_slice()).as_str());
            assert(storage_buf@ =~= done + storage_line(entry.key@, entry.value@));
            index += 1;
        }
        assert(self.pairs().take(self.pairs().len() as int) =~= self.pairs());
        storage_buf
    }

    /// The value kept under `key`, where the key holds one.
    pub fn get(&self, key: &[u8]) -> (value: Option<&Vec<u8>>)
        ensures
            match value {
                Some(bytes) => self@.contains_key(key@) && bytes@ == self@[key@],
                None => !self@.contains_key(key@),
            },
    {
        let (index, found) = self.locate(key);
        if found {
            proof {
                lemma_pairs_map_at(self.pairs(), index as int);
            }
            Some(&self.entries[index].value)
        } else {
            None
        }
    }

    /// Puts `value` under `key`, in place of what the key held before.
    pub fn insert(&mut self, key: Vec<u8>, value: Vec<u8>)
        ensures
            final(self)@ == old(self)@.insert(key@, value@),
    {
        let (index, found) = self.locate(key.as_slice());
        let ghost before = self.pairs();
        let mut entries: Vec<StorageEntry> = Vec::new();
        core::mem::swap(&mut self.entries, &mut entries);
        assert(entry_pairs(entries@) == before);
        let entry = StorageEntry { key, value };
        if found {
            entries.set(index, entry);
            assert(entry_pairs(entries@) =~= before.update(index as int, (key@, value@)));
        } else {
            entries.insert(index, entry);
            assert(entry_pairs(entries@) =~= before.insert(index as int, (key@, value@)));
        }
        let ghost after = entry_pairs(entries@);
        proof {
            lemma_put_pair(before, index as int, found, key@, value@);
        }
        self.entries = entries;
    }
}

impl Clone for AccountStorage {
    fn clone(&self) -> (copy: Self)
        ensures
            copy.pairs() == self.pairs(),
            copy@ == self@,
    {
        proof {
            use_type_invariant(self);
        }
        let mut entries: Vec<StorageEntry> = Vec::new();
        let mut index: usize = 0;
        while index < self.entries.len()
            invariant
                index <= self.entries@.len(),
                entry_pairs(entries@) == self.pairs().take(index as int),
            decreases self.entries@.len() - index,
        {
            let entry = StorageEntry {
                key: bytes_to_vec(self.entries[index].key.as_slice()),
                value: bytes_to_vec(self.entries[index].value.as_slice()),
            };
            assert(self.pairs()[index as int] == (entry.key@, entry.value@));
            assert(entry_pairs(entries@.push(entry)) =~= entry_pairs(entries@).push(
                (entry.key@, entry.value@),
            ));
            assert(self.pairs().take(index + 1) =~= self.pairs().take(index as int).push(
                self.pairs()[index as int],
            ));
            entries.push(entry);
            index += 1;
        }
        assert(self.pairs().take(self.pairs().len() as int) =~= self.pairs());
        AccountStorage { entries }
    }
}

/// Putting a pair at its place among pairs in order: the result is in order again, and
/// stands for the map with that one key set anew.
pub proof fn lemma_put_pair(
    before: Seq<(Seq<u8>, Seq<u8>)>,
    index: int,
    found: bool,
    key: Seq<u8>,
    value: Seq<u8>,
)
    requires
        keys_ascending(before),
        0 <= index <= before.len(),
        forall|i: int| 0 <= i < index ==> lex_less((#[trigger] before[i]).0, key),
        found ==> index < before.len() && before[index].0 == key,
        !found ==> forall|i: int| index <= i < before.len() ==> lex_less(key, (#[trigger] before[i]).0),
    ensures
        ({
            let after = if found {
                before.update(index, (key, value))
            } else {
                before.insert(index, (key, value))
            };
            &&& keys_ascending(after)
            &&& pairs_map(after) == pairs_map(before).insert(key, value)
        }),
{
    let after = if found {
        before.update(index, (key, value))
    } else {
        before.insert(index, (key, value))
    };
    assert forall|i: int, j: int| 0 <= i < j < after.len() implies lex_less(
        #[trigger] after[i].0,
        #[trigger] after[j].0,
    ) by {
        if found {
            assert(after[i].0 == before[i].0);
            assert(after[j].0 == before[j].0);
        } else {
            let bi = if i < index {
                i
            } else {
                i - 1
            };
            let bj = if j < index {
                j
            } else {
                j - 1
            };
            if i != index {
                assert(after[i] == before[bi]);
            }
            if j != index {
                assert(after[j] == before[bj]);
            }
        }
    }
    assert(after[index] == (key, value));
    lemma_pairs_map_at(after, index);
    assert forall|other: Seq<u8>|
        pairs_map(after).contains_key(other) == pairs_map(before).insert(key, value).contains_key(
            other,
        ) by {
        if other != key {
            if has_key(before, other) {
                let b = choose|b: int| 0 <= b < before.len() && (#[trigger] before[b]).0 == other;
                let a = if found || b < index {
                    b
                } else {
                    b + 1
                };
                assert(after[a] == before[b]);
            }
            if has_key(after, other) {
                let a = choose|a: int| 0 <= a < after.len() && (#[trigger] after[a]).0 == other;
                let b = if found || a < index {
                    a
                } else {
                    a - 1
                };
                assert(after[a] == before[b]);
            }
        }
    }
    assert forall|other: Seq<u8>| pairs_map(after).contains_key(other) implies pairs_map(
        after,
    )[other] == pairs_map(before).insert(key, value)[other] by {
        if other != key {
            let b = choose|b: int| 0 <= b < before.len() && (#[trigger] before[b]).0 == other;
            let a = if found || b < index {
                b
            } else {
                b + 1
            };
            assert(after[a] == before[b]);
            lemma_pairs_map_at(after, a);
            lemma_pairs_map_at(before, b);
        }
    }
    assert(pairs_map(after) =~= pairs_map(before).insert(key, value));
}

/// An account as text, from the texts of its parts.
pub open spec fn account_text(
    nonce: nat,
    balance: nat,
    esdt: Seq<char>,
    username: Seq<char>,
    storage: Seq<char>,
    developer_rewards: nat,
) -> Seq<char> {
    "AccountData {\n\t\tnonce: "@ + decimal_text(nonce) + ",\n\t\tbalance: "@ + decimal_text(
        balance,
    ) + ",\n\t\tesdt: ["@ + esdt + " ],\n\t\tusername: "@ + username
        + ",\n\t\tstorage: ["@ + storage + " ],\n\t\tdeveloperRewards: "@ + decimal_text(
        developer_rewards,
    ) + ",\n\t}"@
}

/// One account of the mock world.
#[derive(Clone, Debug, PartialEq, Eq)]
pub struct AccountData {
    pub address: Vec<u8>,
    pub nonce: u64,
    pub egld_balance: BigUint,
    pub storage: AccountStorage,
    pub username: Vec<u8>,
    pub contract_path: Option<Vec<u8>>,
    pub contract_owner: Option<Vec<u8>>,
    pub developer_rewards: BigUint,
}

impl AccountData {
    /// A fresh account at `address`: it owns nothing and its storage is empty.
    pub fn new(address: Vec<u8>) -> (account: Self)
        ensures
            account.address == address,
            account.nonce == 0,
            account.egld_balance@ == 0,
            account.developer_rewards@ == 0,
            account.storage@ == Map::<Seq<u8>, Seq<u8>>::empty(),
            account.username@ == Seq::<u8>::empty(),
            account.contract_path is None,
            account.contract_owner is None,
    {
        AccountData {
            address,
            nonce: 0,
            egld_balance: BigUint::zero(),
            storage: AccountStorage::new(),
            username: Vec::new(),
            contract_path: None,
            contract_owner: None,
            developer_rewards: BigUint::zero(),
        }
    }

    /// The account as text: its nonce, its balance, its tokens as the text `esdt` gives
    /// them, its user name, its storage slot by slot in the order of the keys, and its
    /// developer rewards. A user name that is not valid UTF-8 has no text, and then the
    /// account has none.
    pub fn to_text(&self, esdt: &str) -> (text: Option<String>)
        ensures
            match text {
                Some(shown) => {
                    &&& valid_utf8(self.username@)
                    &&& shown@ == account_text(
                        self.nonce as nat,
                        self.egld_balance@,
                        esdt@,
                        decode_utf8(self.username@),
                        storage_lines(self.storage.pairs()),
                        self.developer_rewards@,
                    )
                },
                None => !valid_utf8(self.username@),
            },
    {
        let username = match text_of_bytes(self.username.as_slice()) {
            Some(username) => username,
            None => {
                return None;
            },
        };
        let nonce = crate::types::BigUint::from_bytes_be(self.nonce.top_encode().as_slice());
        proof {
            crate::big_endian::lemma_min_be(self.nonce as nat);
        }
        let mut shown = String::from_str("AccountData {\n\t\tnonce: ");
        shown.append(big_uint_text(&nonce).as_str());
        shown.append(",\n\t\tbalance: ");
        shown.append(big_uint_text(&self.egld_balance).as_str());
        shown.append(",\n\t\tesdt: [");
        shown.append(esdt);
        shown.append(" ],\n\t\tusername: ");
        shown.append(username.as_str());
        shown.append(",\n\t\tstorage: [");
        shown.append(self.storage.to_text().as_str());
        shown.append(" ],\n\t\tdeveloperRewards: ");
        shown.append(big_uint_text(&self.developer_rewards).as_str());
        shown.append(",\n\t}");
        Some(shown)
    }

    /// Writes `value` under `key`. Every other key reads as before.
    pub fn storage_store(&mut self, key: &[u8], value: &[u8])
        ensures
            final(self).storage@ == old(self).storage@.insert(key@, value@),
            final(self).storage_value(key@) == value@,
            forall|other: Seq<u8>|
                other != key@ ==> final(self).storage_value(other) == old(self).storage_value(
                    other,
                ),
            final(self).address == old(self).address,
            final(self).nonce == old(self).nonce,
            final(self).egld_balance == old(self).egld_balance,
            final(self).username == old(self).username,
            final(self).contract_path == old(self).contract_path,
            final(self).contract_owner == old(self).contract_owner,
            final(self).developer_rewards == old(self).developer_rewards,
    {
        self.storage.insert(bytes_to_vec(key), bytes_to_vec(value));
    }
}

impl StorageReadApi for AccountData {
    open spec fn storage_value(&self, key: Seq<u8>) -> Seq<u8> {
        self.storage.value_at(key)
    }

    fn storage_load_len(&self, key: &[u8]) -> (len: usize)
        ensures
            len == slot_value(self.storage@, key@).len(),
    {
        match self.storage.get(key) {
            Some(value) => value.len(),
            None => 0,
        }
    }

    fn storage_load_boxed_bytes(&self, key: &[u8]) -> (data: Vec<u8>)
        ensures
            data@ == slot_value(self.storage@, key@),
    {
        match self.storage.get(key) {
            Some(value) => bytes_to_vec(value.as_slice()),
            None => Vec::new(),
        }
    }

    fn storage_load_u64(&self, key: &[u8]) -> (value: Option<u64>) {
        let data = self.storage_load_boxed_bytes(key);
        bytes_as_u64(data.as_slice())
    }

    fn storage_load_i64(&self, key: &[u8]) -> (value: Option<i64>) {
        let data = self.storage_load_boxed_bytes(key);
        bytes_as_i64(data.as_slice())
    }

    fn storage_load_managed_buffer(&self, key: &StorageKey) -> (buffer: ManagedBuffer) {
        ManagedBuffer::from_vec(self.storage_load_boxed_bytes(key.as_slice()))
    }

    fn storage_load_managed_buffer_len(&self, key: &StorageKey) -> (len: usize) {
        self.storage_load_len(key.as_slice())
    }
}

} // verus!
