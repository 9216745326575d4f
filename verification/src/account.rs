//! Accounts with their code and storage.

use crate::primitives::{
    bytes_equal, copy_vec, keccak256, keccak256_of, opt_view, Address, B256, StorageKey,
    StorageValue, U256,
};
use crate::search::{first_match, lemma_is_first, lemma_none_matches};
use crate::store::{
    entries, entries_view, insert_all, lemma_walk_rebuilds, map_default, map_get, map_insert,
    map_view, walk_view,
};
use alloy_primitives::map::HashMap;
use vstd::prelude::*;

verus! {

/// What the state trie holds of an account.
#[derive(Debug, Clone, Copy, PartialEq, Eq)]
pub struct Account {
    pub nonce: u64,
    pub balance: U256,
    pub bytecode_hash: Option<B256>,
}

/// What an [`Account`] holds.
#[verifier::ext_equal]
pub struct AccountView {
    pub nonce: u64,
    pub balance: nat,
    pub bytecode_hash: Option<B256>,
}

impl View for Account {
    type V = AccountView;

    open spec fn view(&self) -> AccountView {
        AccountView {
            nonce: self.nonce,
            balance: self.balance@,
            bytecode_hash: self.bytecode_hash,
        }
    }
}

/// Contract code, decoded from its raw bytes.
#[derive(Debug, PartialEq, Eq)]
pub enum Bytecode {
    /// Code without a format marker: padded with zeros, and with its jump destinations marked.
    LegacyAnalyzed { bytecode: Vec<u8>, original_len: usize, jump_table: Vec<u8> },
    /// A container in the EVM object format.
    Eof { raw: Vec<u8> },
    /// A delegation to the code of another account.
    Eip7702 { delegated_address: Address, version: u8, raw: Vec<u8> },
}

/// What a [`Bytecode`] holds.
#[verifier::ext_equal]
pub enum BytecodeView {
    LegacyAnalyzed { bytecode: Seq<u8>, original_len: int, jump_table: Seq<u8> },
    Eof { raw: Seq<u8> },
    Eip7702 { delegated_address: Seq<u8>, version: u8, raw: Seq<u8> },
}

impl View for Bytecode {
    type V = BytecodeView;

    open spec fn view(&self) -> BytecodeView {
        match self {
            Bytecode::LegacyAnalyzed { bytecode, original_len, jump_table } =>
                BytecodeView::LegacyAnalyzed {
                bytecode: bytecode@,
                original_len: *original_len as int,
                jump_table: jump_table@,
            },
            Bytecode::Eof { raw } => BytecodeView::Eof { raw: raw@ },
            Bytecode::Eip7702 { delegated_address, version, raw } => BytecodeView::Eip7702 {
                delegated_address: delegated_address@,
                version: *version,
                raw: raw@,
            },
        }
    }
}

impl BytecodeView {
    /// The raw bytes that the code was decoded from.
    pub open spec fn original_bytes(self) -> Seq<u8> {
        match self {
            BytecodeView::LegacyAnalyzed { bytecode, original_len, .. } => bytecode.take(
                original_len,
            ),
            BytecodeView::Eof { raw } => raw,
            BytecodeView::Eip7702 { raw, .. } => raw,
        }
    }
}

/// Whether raw code starts with these two bytes.
pub open spec fn starts_with(raw: Seq<u8>, first: u8, second: u8) -> bool {
    raw.len() >= 2 && raw[0] == first && raw[1] == second
}

/// The code that `revm_bytecode::Bytecode::new_raw_checked` decodes from raw bytes, where it
/// accepts them.
pub uninterp spec fn decoded_bytecode(raw: Seq<u8>) -> Option<BytecodeView>;

/// Whether raw bytes are accepted as code. Containers in the EVM object format are accepted where
/// they decode, delegations where they have the right length and version, and other code always.
pub open spec fn is_valid_bytecode(raw: Seq<u8>) -> bool {
    if starts_with(raw, 0xef, 0x00) {
        decoded_bytecode(raw) is Some
    } else if starts_with(raw, 0xef, 0x01) {
        raw.len() == 23 && raw[2] == 0
    } else {
        true
    }
}

/// Whether `code` is what raw bytes without a format marker decode to: the bytes padded with 33
/// zeros, and some marking of the jump destinations.
pub open spec fn is_padded(code: BytecodeView, raw: Seq<u8>) -> bool {
    &&& code is LegacyAnalyzed
    &&& code->original_len == raw.len()
    &&& code->bytecode == raw + Seq::new(33, |i: int| 0u8)
}

/// Whether `code` is what valid raw bytes decode to.
pub open spec fn is_decoded(code: BytecodeView, raw: Seq<u8>) -> bool {
    &&& decoded_bytecode(raw) == Some(code)
    &&& code.original_bytes() == raw
    &&& if starts_with(raw, 0xef, 0x00) {
        code == BytecodeView::Eof { raw }
    } else if starts_with(raw, 0xef, 0x01) {
        code == (BytecodeView::Eip7702 { delegated_address: raw.skip(3), version: 0, raw })
    } else {
        is_padded(code, raw)
    }
}

/// The error of `revm_bytecode::Bytecode::new_raw_checked`.
#[verifier::external_type_specification]
#[verifier::external_body]
pub struct ExBytecodeDecodeError(revm_bytecode::BytecodeDecodeError);

/// Calls `revm_bytecode::Bytecode::new_raw_checked`. Whether the bytes are accepted, and what they
/// decode to, depends on the bytes alone; code that was accepted keeps its original bytes. Bytes
/// that start with `ef00` decode as a container; those that start with `ef01` are accepted where
/// they are 23 bytes of version zero, and delegate to the address in the last 20 bytes; all others
/// are accepted and padded. Which jump destinations are marked, and which containers are accepted,
/// is left to the name.
#[verifier::external_body]
fn new_raw_checked(raw: Vec<u8>) -> (code: Result<Bytecode, revm_bytecode::BytecodeDecodeError>)
    ensures
        code.is_ok() == (decoded_bytecode(raw@) is Some),
        code.is_ok() == is_valid_bytecode(raw@),
        code.is_ok() ==> is_decoded(code->Ok_0@, raw@),
{
    Ok(match revm_bytecode::Bytecode::new_raw_checked(raw.into())? {
        revm_bytecode::Bytecode::LegacyAnalyzed(code) => Bytecode::LegacyAnalyzed {
            bytecode: code.bytecode().to_vec(),
            original_len: code.original_len(),
            jump_table: code.jump_table().as_slice().to_vec(),
        },
        revm_bytecode::Bytecode::Eof(code) => Bytecode::Eof { raw: code.raw().to_vec() },
        revm_bytecode::Bytecode::Eip7702(code) => Bytecode::Eip7702 {
            delegated_address: code.delegated_address.into(),
            version: code.version,
            raw: code.raw.to_vec(),
        },
    })
}

/// Raw bytes were not accepted as code.
#[derive(Debug, Clone, Copy, PartialEq, Eq, Structural)]
pub struct InvalidBytecode;

impl Bytecode {
    /// Decodes raw bytes, or says that they are no valid code.
    pub fn try_new_raw(raw: &Vec<u8>) -> (code: Result<Bytecode, InvalidBytecode>)
        ensures
            match code {
                Ok(code) => is_valid_bytecode(raw@) && is_decoded(code@, raw@),
                Err(error) => !is_valid_bytecode(raw@) && error == InvalidBytecode,
            },
    {
        match new_raw_checked(copy_vec(raw)) {
            Ok(code) => Ok(code),
            Err(_) => Err(InvalidBytecode),
        }
    }
}

impl Clone for Bytecode {
    fn clone(&self) -> (copy: Bytecode)
        ensures
            copy@ == self@,
    {
        match self {
            Bytecode::LegacyAnalyzed { bytecode, original_len, jump_table } =>
                Bytecode::LegacyAnalyzed {
                bytecode: copy_vec(bytecode),
                original_len: *original_len,
                jump_table: copy_vec(jump_table),
            },
            Bytecode::Eof { raw } => Bytecode::Eof { raw: copy_vec(raw) },
            Bytecode::Eip7702 { delegated_address, version, raw } => Bytecode::Eip7702 {
                delegated_address: *delegated_address,
                version: *version,
                raw: copy_vec(raw),
            },
        }
    }
}

/// An account together with its code and its storage.
#[derive(Debug)]
pub struct ExtendedAccount {
    account: Account,
    bytecode: Option<Bytecode>,
    storage: HashMap<StorageKey, StorageValue>,
}

/// What an [`ExtendedAccount`] holds.
#[verifier::ext_equal]
pub struct ExtendedAccountView {
    pub account: AccountView,
    pub bytecode: Option<BytecodeView>,
    pub storage: Map<StorageKey, nat>,
}

impl View for ExtendedAccount {
    type V = ExtendedAccountView;

    closed spec fn view(&self) -> ExtendedAccountView {
        ExtendedAccountView {
            account: self.account@,
            bytecode: opt_view(self.bytecode),
            storage: map_view(self.storage@),
        }
    }
}

impl ExtendedAccountView {
    /// Whether the account has a code hash just where it has code, and the hash is that of the
    /// code's original bytes.
    pub open spec fn hashes_its_code(self) -> bool {
        match (self.account.bytecode_hash, self.bytecode) {
            (Some(hash), Some(code)) => hash == keccak256_of(code.original_bytes()),
            (None, None) => true,
            _ => false,
        }
    }
}

impl ExtendedAccount {
    #[verifier::type_invariant]
    spec fn inv(self) -> bool {
        self@.hashes_its_code()
    }

    /// Creates an account without code or storage.
    pub fn new(nonce: u64, balance: U256) -> (account: ExtendedAccount)
        ensures
            account@ == (ExtendedAccountView {
                account: AccountView { nonce, balance: balance@, bytecode_hash: None },
                bytecode: None,
                storage: Map::empty(),
            }),
    {
        let account = ExtendedAccount {
            account: Account { nonce, balance, bytecode_hash: None },
            bytecode: None,
            storage: map_default(),
        };
        assert(account@.storage =~= Map::<StorageKey, nat>::empty());
        account
    }

    /// Sets the code and the code hash.
    pub fn with_bytecode(self, bytecode: Vec<u8>) -> (account: ExtendedAccount)
        requires
            is_valid_bytecode(bytecode@),
        ensures
            account@.account == (AccountView {
                bytecode_hash: Some(keccak256_of(bytecode@)),
                ..self@.account
            }),
            account@.bytecode is Some,
            is_decoded(account@.bytecode->0, bytecode@),
            account@.storage == self@.storage,
    {
        let hash = keccak256(bytecode.as_slice());
        let code = match new_raw_checked(bytecode) {
            Ok(code) => Some(code),
            Err(_) => None,
        };
        ExtendedAccount {
            account: Account {
                nonce: self.account.nonce,
                balance: self.account.balance,
                bytecode_hash: Some(hash),
            },
            bytecode: code,
            storage: self.storage,
        }
    }

    /// Sets the code and the code hash, or says that the bytes are no valid code.
    pub fn try_with_bytecode(self, bytecode: Vec<u8>) -> (account: Result<
        ExtendedAccount,
        InvalidBytecode,
    >)
        ensures
            match account {
                Ok(account) => {
                    &&& is_valid_bytecode(bytecode@)
                    &&& account@.account == (AccountView {
                        bytecode_hash: Some(keccak256_of(bytecode@)),
                        ..self@.account
                    })
                    &&& account@.bytecode is Some
                    &&& is_decoded(account@.bytecode->0, bytecode@)
                    &&& account@.storage == self@.storage
                },
                Err(error) => !is_valid_bytecode(bytecode@) && error == InvalidBytecode,
            },
    {
        match Bytecode::try_new_raw(&bytecode) {
            Ok(_) => Ok(self.with_bytecode(bytecode)),
            Err(error) => Err(error),
        }
    }

    /// Adds slots to the storage. A slot that is already present gets the new value.
    pub fn extend_storage(self, storage: Vec<(StorageKey, StorageValue)>) -> (account:
        ExtendedAccount)
        ensures
            account@ == (ExtendedAccountView {
                storage: insert_all(self@.storage, entries_view(storage@)),
                ..self@
            }),
    {
        proof {
            use_type_invariant(&self);
        }
        let ExtendedAccount { account, bytecode, storage: mut slots } = self;
        let ghost before = map_view(slots@);
        let ghost added = entries_view(storage@);
        let mut i: usize = 0;
        while i < storage.len()
            invariant
                i <= storage.len(),
                added == entries_view(storage@),
                map_view(slots@) == insert_all(before, added.take(i as int)),
            decreases storage.len() - i,
        {
            let (key, value) = storage[i];
            let ghost held = slots@;
            map_insert(&mut slots, key, value);
            proof {
                let seen = added.take(i + 1);
                assert(seen.drop_last() =~= added.take(i as int));
                assert(seen.last() == (key, value@));
                assert(map_view(slots@) =~= map_view(held).insert(key, value@));
            }
            i += 1;
        }
        assert(added.take(added.len() as int) =~= added);
        ExtendedAccount { account, bytecode, storage: slots }
    }

    /// Returns the account without its code and storage.
    pub fn account(&self) -> (account: Account)
        ensures
            account@ == self@.account,
    {
        self.account
    }

    /// Reads a slot of the storage.
    pub fn slot(&self, key: &StorageKey) -> (value: Option<StorageValue>)
        ensures
            opt_view(value) == (if self@.storage.contains_key(*key) {
                Some(self@.storage[*key])
            } else {
                None
            }),
    {
        match map_get(&self.storage, key) {
            Some(value) => Some(*value),
            None => None,
        }
    }

    /// Returns the code, where the account has code with this hash.
    pub fn code_with_hash(&self, code_hash: &B256) -> (code: Option<Bytecode>)
        ensures
            opt_view(code) == code_of(self@, *code_hash),
            code is Some ==> keccak256_of(code->0@.original_bytes()) == *code_hash,
    {
        proof {
            use_type_invariant(self);
        }
        match (&self.account.bytecode_hash, &self.bytecode) {
            (Some(bytecode_hash), Some(bytecode)) => if bytes_equal(bytecode_hash, code_hash) {
                Some(bytecode.clone())
            } else {
                None
            },
            _ => None,
        }
    }
}

/// The code of an account that has code with this hash.
pub open spec fn code_of(account: ExtendedAccountView, code_hash: B256) -> Option<BytecodeView> {
    match (account.account.bytecode_hash, account.bytecode) {
        (Some(hash), Some(code)) => if hash == code_hash {
            Some(code)
        } else {
            None
        },
        _ => None,
    }
}

impl Clone for ExtendedAccount {
    fn clone(&self) -> (copy: ExtendedAccount)
        ensures
            copy@ == self@,
    {
        proof {
            use_type_invariant(self);
        }
        let walk = entries(&self.storage);
        let ghost views = walk_view(walk@);
        let mut storage: HashMap<StorageKey, StorageValue> = map_default();
        assert(map_view(storage@) =~= Map::<StorageKey, nat>::empty());
        let mut i: usize = 0;
        while i < walk.len()
            invariant
                i <= walk.len(),
                views == walk_view(walk@),
                map_view(storage@) == insert_all(
                    Map::<StorageKey, nat>::empty(),
                    views.take(i as int),
                ),
            decreases walk.len() - i,
        {
            let key = walk[i].0;
            let value = *walk[i].1;
            let ghost held = storage@;
            map_insert(&mut storage, key, value);
            proof {
                let seen = views.take(i + 1);
                assert(seen.drop_last() =~= views.take(i as int));
                assert(seen.last() == (key, value@));
                assert(map_view(storage@) =~= map_view(held).insert(key, value@));
            }
            i += 1;
        }
        proof {
            assert(views.take(views.len() as int) =~= views);
            lemma_walk_rebuilds(views, map_view(self.storage@));
        }
        let bytecode = match &self.bytecode {
            Some(bytecode) => Some(bytecode.clone()),
            None => None,
        };
        ExtendedAccount { account: self.account, bytecode, storage }
    }
}

/// Whether an account has code with this hash.
pub open spec fn has_code(code_hash: B256) -> spec_fn((Address, ExtendedAccountView)) -> bool {
    |entry: (Address, ExtendedAccountView)| code_of(entry.1, code_hash) is Some
}

/// Copies the code of the first account of a walk that has code with this hash.
pub fn bytecode_by_hash(walk: &[(Address, &ExtendedAccount)], code_hash: &B256) -> (code: Option<
    Bytecode,
>)
    ensures
        opt_view(code) == (match first_match(walk_view(walk@), has_code(*code_hash)) {
            Some(entry) => code_of(entry.1, *code_hash),
            None => None,
        }),
        code is Some ==> keccak256_of(code->0@.original_bytes()) == *code_hash,
{
    let ghost views = walk_view(walk@);
    let ghost p = has_code(*code_hash);
    let mut i: usize = 0;
    while i < walk.len()
        invariant
            i <= walk.len(),
            views == walk_view(walk@),
            p == has_code(*code_hash),
            forall|j: int| 0 <= j < i ==> !p(#[trigger] views[j]),
        decreases walk.len() - i,
    {
        assert(views[i as int].1 == walk[i as int].1@);
        if let Some(code) = walk[i].1.code_with_hash(code_hash) {
            proof {
                lemma_is_first(views, p, i as int);
            }
            return Some(code);
        }
        i += 1;
    }
    proof {
        lemma_none_matches(views, p);
    }
    None
}

} // verus!
