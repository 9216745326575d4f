//! State tries: their updates and their proofs.

use crate::account::Account;
use crate::primitives::{keccak256, keccak256_of, Address, B256, U256};
use crate::store::map_default;
use alloy_primitives::map::HashMap;
use vstd::prelude::*;

verus! {

/// The root of an empty trie.
pub open spec fn empty_root() -> Seq<u8> {
    seq![
        0x56u8, 0xe8, 0x1f, 0x17, 0x1b, 0xcc, 0x55, 0xa6, 0xff, 0x83, 0x45, 0xe6, 0x92, 0xc0, 0xf8,
        0x6e, 0x5b, 0x48, 0xe0, 0x1b, 0x99, 0x6c, 0xad, 0xc0, 0x01, 0x62, 0x2f, 0xb5, 0xe3, 0x63,
        0xb4, 0x21,
    ]
}

/// Reads `alloy_consensus::constants::EMPTY_ROOT_HASH`, whose bytes are those of [`empty_root`].
#[verifier::external_body]
pub(crate) fn empty_root_hash() -> (root: B256)
    ensures
        root@ == empty_root(),
{
    alloy_consensus::constants::EMPTY_ROOT_HASH.0
}

/// A path in a trie, one digit of four bits per step.
#[derive(Debug, PartialEq, Eq)]
pub struct Nibbles(pub Vec<u8>);

impl View for Nibbles {
    type V = Seq<u8>;

    open spec fn view(&self) -> Seq<u8> {
        self.0@
    }
}

/// The digits of bytes, the higher digit of each byte first.
pub open spec fn digits_of(bytes: Seq<u8>) -> Seq<u8> {
    Seq::new(
        2 * bytes.len(),
        |i: int|
            if i % 2 == 0 {
                bytes[i / 2] / 16
            } else {
                bytes[i / 2] % 16
            },
    )
}

impl Nibbles {
    /// Splits a hash into its digits.
    pub fn unpack(hash: &B256) -> (path: Nibbles)
        ensures
            path@ == digits_of(hash@),
    {
        let mut digits: Vec<u8> = Vec::new();
        let mut i: usize = 0;
        while i < 32
            invariant
                i <= 32,
                digits@ == digits_of(hash@).take(2 * i),
            decreases 32 - i,
        {
            digits.push(hash[i] / 16);
            digits.push(hash[i] % 16);
            i += 1;
            assert(digits@ =~= digits_of(hash@).take(2 * i));
        }
        assert(digits_of(hash@).take(64) =~= digits_of(hash@));
        Nibbles(digits)
    }
}

/// The state after a block, by hashed address.
#[derive(Debug)]
pub struct HashedPostState {
    pub accounts: HashMap<B256, Option<Account>>,
    pub storages: HashMap<B256, HashedStorage>,
}

impl HashedPostState {
    /// Whether the state holds no account and no storage.
    pub open spec fn is_empty_state(self) -> bool {
        &&& self.accounts@ == Map::<B256, Option<Account>>::empty()
        &&& self.storages@ == Map::<B256, HashedStorage>::empty()
    }
}

impl Default for HashedPostState {
    /// A state without accounts.
    fn default() -> (state: HashedPostState)
        ensures
            state.is_empty_state(),
    {
        HashedPostState { accounts: map_default(), storages: map_default() }
    }
}

/// The storage of an account after a block, by hashed slot.
#[derive(Debug)]
pub struct HashedStorage {
    pub wiped: bool,
    pub storage: HashMap<B256, U256>,
}

/// A branch of a trie.
#[derive(Debug)]
pub struct BranchNode {
    pub state_mask: u16,
    pub tree_mask: u16,
    pub hash_mask: u16,
    pub hashes: Vec<B256>,
    pub root_hash: Option<B256>,
}

/// The nodes of a storage trie that changed.
#[derive(Debug)]
pub struct StorageTrieUpdates {
    pub is_deleted: bool,
    pub storage_nodes: Vec<(Nibbles, BranchNode)>,
    pub removed_nodes: Vec<Nibbles>,
}

/// The nodes of the state trie that changed.
#[derive(Debug)]
pub struct TrieUpdates {
    pub account_nodes: Vec<(Nibbles, BranchNode)>,
    pub removed_nodes: Vec<Nibbles>,
    pub storage_tries: HashMap<B256, StorageTrieUpdates>,
}

impl TrieUpdates {
    /// Whether no node changed.
    pub open spec fn is_unchanged(self) -> bool {
        &&& self.account_nodes@.len() == 0
        &&& self.removed_nodes@.len() == 0
        &&& self.storage_tries@ == Map::<B256, StorageTrieUpdates>::empty()
    }
}

impl Default for TrieUpdates {
    /// No changes.
    fn default() -> (updates: TrieUpdates)
        ensures
            updates.is_unchanged(),
    {
        TrieUpdates {
            account_nodes: Vec::new(),
            removed_nodes: Vec::new(),
            storage_tries: map_default(),
        }
    }
}

/// What a state root is computed from.
#[derive(Debug)]
pub struct TrieInput {
    pub nodes: TrieUpdates,
    pub state: HashedPostState,
}

/// The accounts and slots that a proof is to cover.
#[derive(Debug)]
pub struct MultiProofTargets(pub HashMap<B256, Vec<B256>>);

/// A proof of a storage slot.
#[derive(Debug)]
pub struct StorageProof {
    pub key: B256,
    pub nibbles: Nibbles,
    pub value: U256,
    pub proof_nodes: Vec<Vec<u8>>,
}

impl StorageProof {
    /// Whether this is the start of a proof of a slot: the path of the hashed slot, the value zero
    /// and no nodes.
    pub open spec fn is_start_for(self, key: B256) -> bool {
        &&& self.key == key
        &&& self.nibbles@ == digits_of(keccak256_of(key@)@)
        &&& self.value@ == 0
        &&& self.proof_nodes@.len() == 0
    }

    /// Starts a proof of a slot: without nodes, and with the value zero.
    pub fn new(key: B256) -> (started: StorageProof)
        ensures
            started.is_start_for(key),
    {
        let hashed = keccak256(key.as_slice());
        StorageProof {
            key,
            nibbles: Nibbles::unpack(&hashed),
            value: U256::zero(),
            proof_nodes: Vec::new(),
        }
    }
}

/// A proof of several slots of one storage trie.
#[derive(Debug)]
pub struct StorageMultiProof {
    pub root: B256,
    pub subtree: Vec<(Nibbles, Vec<u8>)>,
}

impl StorageMultiProof {
    /// Whether this is the proof of an empty trie: its root, and at the empty path the node that
    /// encodes the empty string.
    pub open spec fn is_of_empty_trie(self) -> bool {
        &&& self.root@ == empty_root()
        &&& self.subtree@.len() == 1
        &&& self.subtree@[0].0@ == Seq::<u8>::empty()
        &&& self.subtree@[0].1@ == seq![0x80u8]
    }

    /// The proof of an empty trie: its root, and the node that encodes the empty string.
    pub fn empty() -> (started: StorageMultiProof)
        ensures
            started.is_of_empty_trie(),
    {
        let node: Vec<u8> = vec![0x80u8];
        let subtree: Vec<(Nibbles, Vec<u8>)> = vec![(Nibbles(Vec::new()), node)];
        assert(subtree@[0].0@ =~= Seq::<u8>::empty());
        assert(subtree@[0].1@ =~= seq![0x80u8]);
        StorageMultiProof { root: empty_root_hash(), subtree }
    }
}

/// A proof of an account and some of its slots.
#[derive(Debug)]
pub struct AccountProof {
    pub address: Address,
    pub info: Option<Account>,
    pub proof_nodes: Vec<Vec<u8>>,
    pub storage_root: B256,
    pub storage_proofs: Vec<StorageProof>,
}

impl AccountProof {
    /// Whether this is the start of a proof of an account: of one that does not exist, without
    /// storage and without nodes.
    pub open spec fn is_start_for(self, address: Address) -> bool {
        &&& self.address == address
        &&& self.info is None
        &&& self.proof_nodes@.len() == 0
        &&& self.storage_root@ == empty_root()
        &&& self.storage_proofs@.len() == 0
    }

    /// Starts a proof of an account: without nodes, for an account that does not exist.
    pub fn new(address: Address) -> (started: AccountProof)
        ensures
            started.is_start_for(address),
    {
        AccountProof {
            address,
            info: None,
            proof_nodes: Vec::new(),
            storage_root: empty_root_hash(),
            storage_proofs: Vec::new(),
        }
    }
}

/// A proof of several accounts and their slots.
#[derive(Debug)]
pub struct MultiProof {
    pub account_subtree: Vec<(Nibbles, Vec<u8>)>,
    pub storages: HashMap<B256, StorageMultiProof>,
}

impl MultiProof {
    /// Whether the proof is of nothing.
    pub open spec fn is_of_nothing(self) -> bool {
        &&& self.account_subtree@.len() == 0
        &&& self.storages@ == Map::<B256, StorageMultiProof>::empty()
    }
}

impl Default for MultiProof {
    /// A proof of nothing.
    fn default() -> (started: MultiProof)
        ensures
            started.is_of_nothing(),
    {
        MultiProof { account_subtree: Vec::new(), storages: map_default() }
    }
}

} // verus!
