//! Reading state from the provider: accounts, code, storage, state roots and proofs.

use crate::account::{self, code_of, has_code, Account, AccountView, Bytecode, ExtendedAccountView};
use crate::block::BlockNumberOrTag;
use crate::error::{found_view, ConsistentViewError, GotExpected, ProviderError, ProviderResult};
use crate::primitives::{
    is_zero_hash, keccak256_of, opt_view, zero_hash, Address, B256, BlockHash, BlockNumber,
    StorageKey, StorageValue,
};
use crate::provider::MockEthProvider;
use crate::search::{first_position, lemma_first_position};
use crate::store::{entries, map_default, map_get, walk_view};
use crate::trie::{
    empty_root, empty_root_hash, AccountProof, HashedPostState, HashedStorage, MultiProof,
    MultiProofTargets, StorageMultiProof, StorageProof, TrieInput, TrieUpdates,
};
use crate::types::{
    AccountBeforeTx, CanonStateNotification, ExecutionOutcome, StageCheckpoint, StageId,
};
use alloy_primitives::map::HashMap;
use vstd::prelude::*;

verus! {

/// The changes of state that `revm_database` bundles up; the provider does not look into them.
#[verifier::external_type_specification]
#[verifier::external_body]
pub struct ExBundleState(revm_database::BundleState);

/// The receiving end of a broadcast channel of `tokio`.
#[verifier::external_type_specification]
#[verifier::external_body]
#[verifier::reject_recursive_types(A)]
pub struct ExReceiver<A>(tokio::sync::broadcast::Receiver<A>);

/// The notifications that a receiver has yet to read, oldest first; as many as
/// `tokio::sync::broadcast::Receiver::len` counts.
pub uninterp spec fn unread_notifications(
    receiver: tokio::sync::broadcast::Receiver<CanonStateNotification>,
) -> Seq<CanonStateNotification>;

/// The number of senders that can still reach a receiver, as
/// `tokio::sync::broadcast::Receiver::sender_strong_count` counts them.
pub uninterp spec fn live_senders(
    receiver: tokio::sync::broadcast::Receiver<CanonStateNotification>,
) -> nat;

/// The capacity that the channel of a receiver was asked to have.
pub uninterp spec fn channel_capacity(
    receiver: tokio::sync::broadcast::Receiver<CanonStateNotification>,
) -> nat;

/// Calls `tokio::sync::broadcast::channel` and keeps the receiver. The channel is new, so there is
/// nothing to read; its one sender is dropped, so nothing can be sent any more. The call panics
/// where the capacity is zero or more than half of `usize::MAX`.
#[verifier::external_body]
fn receiver_without_sender(capacity: usize) -> (receiver: tokio::sync::broadcast::Receiver<
    CanonStateNotification,
>)
    requires
        0 < capacity <= usize::MAX / 2,
    ensures
        unread_notifications(receiver) == (Seq::<CanonStateNotification>::empty()),
        live_senders(receiver) == 0,
        channel_capacity(receiver) == capacity,
{
    tokio::sync::broadcast::channel(capacity).1
}

/// Whether `code` is the code of an account of the map with this code hash, or `None` where no
/// account has such code.
pub open spec fn is_code_with_hash(
    map: Map<Address, ExtendedAccountView>,
    code_hash: B256,
    code: Option<crate::account::BytecodeView>,
) -> bool {
    match code {
        Some(found) => exists|address: Address| #[trigger]
            map.contains_key(address) && code_of(map[address], code_hash) == Some(found),
        None => forall|address: Address| #[trigger]
            map.contains_key(address) ==> code_of(map[address], code_hash) is None,
    }
}

/// Whether `root` is the state root that was added last, or zero where none is left.
pub open spec fn is_next_root(roots: Seq<B256>, root: B256) -> bool {
    if roots.len() > 0 {
        root == roots.last()
    } else {
        is_zero_hash(root)
    }
}

/// The state roots that are left when the next one has been handed out.
pub open spec fn remaining_roots(roots: Seq<B256>) -> Seq<B256> {
    if roots.len() > 0 {
        roots.drop_last()
    } else {
        roots
    }
}

/// The state at a block. There is no finalized and no safe block; at every other one it is the
/// provider itself, whether or not the block is stored.
pub open spec fn state_at<T, C>(
    provider: &MockEthProvider<T, C>,
    number_or_tag: BlockNumberOrTag,
) -> ProviderResult<&MockEthProvider<T, C>> {
    match number_or_tag {
        BlockNumberOrTag::Finalized => Err(ProviderError::FinalizedBlockNotFound),
        BlockNumberOrTag::Safe => Err(ProviderError::SafeBlockNotFound),
        _ => Ok(provider),
    }
}

impl<T, C> MockEthProvider<T, C> {
    /// Reads an account.
    pub fn basic_account(&self, address: &Address) -> (found: ProviderResult<Option<Account>>)
        ensures
            found_view(found) == Ok::<Option<AccountView>, ProviderError>(
                match self.account_map().get(*address) {
                    Some(account) => Some(account.account),
                    None => None,
                },
            ),
    {
        match map_get(&self.accounts, address) {
            Some(account) => Ok(Some(account.account())),
            None => Ok(None),
        }
    }

    /// Reads a storage slot of an account.
    pub fn storage(&self, account: Address, storage_key: StorageKey) -> (found: ProviderResult<
        Option<StorageValue>,
    >)
        ensures
            found_view(found) == Ok::<Option<nat>, ProviderError>(
                match self.account_map().get(account) {
                    Some(account) => account.storage.get(storage_key),
                    None => None,
                },
            ),
    {
        match map_get(&self.accounts, &account) {
            Some(account) => Ok(account.slot(&storage_key)),
            None => Ok(None),
        }
    }

    /// Finds the code with this hash.
    pub fn bytecode_by_hash(&self, code_hash: &B256) -> (found: ProviderResult<Option<Bytecode>>)
        ensures
            found is Ok,
            is_code_with_hash(self.account_map(), *code_hash, opt_view(found->Ok_0)),
            found matches Ok(Some(code)) ==> keccak256_of(code@.original_bytes()) == *code_hash,
    {
        let walk = entries(&self.accounts);
        proof {
            let views = walk_view(walk@);
            let map = self.account_map();
            let p = has_code(*code_hash);
            lemma_first_position(views, p);
            match first_position(views, p) {
                Some(i) => {
                    assert(map.contains_key(views[i].0));
                },
                None => {
                    assert forall|address: Address| #[trigger]
                        map.contains_key(address) implies code_of(
                        map[address],
                        *code_hash,
                    ) is None by {
                        let i = choose|i: int|
                            0 <= i < views.len() && (#[trigger] views[i]).0 == address;
                        assert(map[views[i].0] == views[i].1);
                        assert(!p(views[i]));
                    }
                },
            }
        }
        Ok(account::bytecode_by_hash(walk.as_slice(), code_hash))
    }

    /// Takes the state root that was added last; the zero hash where none is left.
    fn next_state_root(&mut self) -> (root: B256)
        ensures
            is_next_root(old(self).state_roots@, root),
            final(self).state_roots@ == remaining_roots(old(self).state_roots@),
            final(self).same_besides_state_roots(*old(self)),
    {
        match self.state_roots.pop() {
            Some(root) => root,
            None => zero_hash(),
        }
    }

    /// Hands out the state root that was added last; the zero hash where none is left.
    pub fn state_root(&mut self, _state: HashedPostState) -> (root: ProviderResult<B256>)
        ensures
            root is Ok && is_next_root(old(self).state_roots@, root->Ok_0),
            final(self).state_roots@ == remaining_roots(old(self).state_roots@),
            final(self).same_besides_state_roots(*old(self)),
    {
        Ok(self.next_state_root())
    }

    /// Hands out the state root that was added last; the zero hash where none is left.
    pub fn state_root_from_nodes(&mut self, _input: TrieInput) -> (root: ProviderResult<B256>)
        ensures
            root is Ok && is_next_root(old(self).state_roots@, root->Ok_0),
            final(self).state_roots@ == remaining_roots(old(self).state_roots@),
            final(self).same_besides_state_roots(*old(self)),
    {
        Ok(self.next_state_root())
    }

    /// Hands out the state root that was added last, without trie updates; the zero hash where
    /// none is left.
    pub fn state_root_with_updates(&mut self, _state: HashedPostState) -> (root: ProviderResult<
        (B256, TrieUpdates),
    >)
        ensures
            match root {
                Ok((root, updates)) => {
                    &&& is_next_root(old(self).state_roots@, root)
                    &&& updates.is_unchanged()
                },
                Err(_) => false,
            },
            final(self).state_roots@ == remaining_roots(old(self).state_roots@),
            final(self).same_besides_state_roots(*old(self)),
    {
        Ok((self.next_state_root(), TrieUpdates::default()))
    }

    /// Hands out the state root that was added last, without trie updates; the zero hash where
    /// none is left.
    pub fn state_root_from_nodes_with_updates(&mut self, _input: TrieInput) -> (root:
        ProviderResult<(B256, TrieUpdates)>)
        ensures
            match root {
                Ok((root, updates)) => {
                    &&& is_next_root(old(self).state_roots@, root)
                    &&& updates.is_unchanged()
                },
                Err(_) => false,
            },
            final(self).state_roots@ == remaining_roots(old(self).state_roots@),
            final(self).same_besides_state_roots(*old(self)),
    {
        Ok((self.next_state_root(), TrieUpdates::default()))
    }

    /// Every storage trie has the root of an empty trie.
    pub fn storage_root(&self, _address: Address, _hashed_storage: HashedStorage) -> (root:
        ProviderResult<B256>)
        ensures
            root is Ok && root->Ok_0@ == empty_root(),
    {
        Ok(empty_root_hash())
    }

    /// Starts a proof of a slot.
    pub fn storage_proof(
        &self,
        _address: Address,
        slot: B256,
        _hashed_storage: HashedStorage,
    ) -> (started: ProviderResult<StorageProof>)
        ensures
            started is Ok && started->Ok_0.is_start_for(slot),
    {
        Ok(StorageProof::new(slot))
    }

    /// Proves an empty storage trie.
    pub fn storage_multiproof(
        &self,
        _address: Address,
        _slots: &[B256],
        _hashed_storage: HashedStorage,
    ) -> (started: ProviderResult<StorageMultiProof>)
        ensures
            started is Ok && started->Ok_0.is_of_empty_trie(),
    {
        Ok(StorageMultiProof::empty())
    }

    /// Starts a proof of an account.
    pub fn account_proof(&self, _input: TrieInput, address: Address, _slots: &[B256]) -> (started:
        ProviderResult<AccountProof>)
        ensures
            started is Ok && started->Ok_0.is_start_for(address),
    {
        Ok(AccountProof::new(address))
    }

    /// Proves nothing.
    pub fn multiproof(&self, _input: TrieInput, _targets: MultiProofTargets) -> (started:
        ProviderResult<MultiProof>)
        ensures
            started is Ok && started->Ok_0.is_of_nothing(),
    {
        Ok(MultiProof::default())
    }

    /// Witnesses nothing.
    pub fn witness(&self, _input: TrieInput, _target: HashedPostState) -> (witness: ProviderResult<
        HashMap<B256, Vec<u8>>,
    >)
        ensures
            witness is Ok && witness->Ok_0@ == Map::<B256, Vec<u8>>::empty(),
    {
        Ok(map_default())
    }

    /// Hashes nothing of a bundle of changes.
    pub fn hashed_post_state(&self, _state: &revm_database::BundleState) -> (state: HashedPostState)
        ensures
            state.is_empty_state(),
    {
        HashedPostState::default()
    }

    /// The state at the tip of the chain: the provider itself.
    pub fn latest(&self) -> (state: ProviderResult<&Self>)
        ensures
            state == Ok::<&Self, ProviderError>(self),
    {
        Ok(self)
    }

    /// The state at a block. There is no finalized and no safe block; at every other one it is
    /// the provider itself.
    pub fn state_by_block_number_or_tag(&self, number_or_tag: BlockNumberOrTag) -> (state:
        ProviderResult<&Self>)
        ensures
            state == state_at(self, number_or_tag),
    {
        match number_or_tag {
            BlockNumberOrTag::Latest => self.latest(),
            BlockNumberOrTag::Finalized => match self.finalized_block_hash() {
                Ok(Some(hash)) => self.history_by_block_hash(hash),
                Ok(None) => Err(ProviderError::FinalizedBlockNotFound),
                Err(error) => Err(error),
            },
            BlockNumberOrTag::Safe => match self.safe_block_hash() {
                Ok(Some(hash)) => self.history_by_block_hash(hash),
                Ok(None) => Err(ProviderError::SafeBlockNotFound),
                Err(error) => Err(error),
            },
            BlockNumberOrTag::Earliest => self.history_by_block_number(0),
            BlockNumberOrTag::Pending => self.pending(),
            BlockNumberOrTag::Number(number) => self.history_by_block_number(number),
        }
    }

    /// The state at a block, kept while the provider is added to. It shares the provider's stores:
    /// what is added is seen in the state, and what the state then holds, the provider holds.
    pub fn live_state_by_block_number_or_tag(&mut self, number_or_tag: BlockNumberOrTag) -> (state:
        ProviderResult<&mut Self>)
        ensures
            match state {
                Ok(state) => {
                    &&& state_at(old(self), number_or_tag) is Ok
                    &&& *state == *old(self)
                    &&& *final(self) == *final(state)
                },
                Err(error) => {
                    &&& state_at(old(self), number_or_tag) == Err::<&Self, ProviderError>(error)
                    &&& *final(self) == *old(self)
                },
            },
    {
        match self.state_by_block_number_or_tag(number_or_tag) {
            Ok(_) => Ok(self),
            Err(error) => Err(error),
        }
    }

    /// The state at a block: the provider itself.
    pub fn history_by_block_number(&self, _block: BlockNumber) -> (state: ProviderResult<&Self>)
        ensures
            state == Ok::<&Self, ProviderError>(self),
    {
        Ok(self)
    }

    /// The state at a block: the provider itself.
    pub fn history_by_block_hash(&self, _block: BlockHash) -> (state: ProviderResult<&Self>)
        ensures
            state == Ok::<&Self, ProviderError>(self),
    {
        Ok(self)
    }

    /// The state at a block: the provider itself.
    pub fn state_by_block_hash(&self, _block: BlockHash) -> (state: ProviderResult<&Self>)
        ensures
            state == Ok::<&Self, ProviderError>(self),
    {
        Ok(self)
    }

    /// The pending state: the provider itself.
    pub fn pending(&self) -> (state: ProviderResult<&Self>)
        ensures
            state == Ok::<&Self, ProviderError>(self),
    {
        Ok(self)
    }

    /// The pending state at a block: the provider itself.
    pub fn pending_state_by_hash(&self, _block_hash: B256) -> (state: ProviderResult<Option<&Self>>)
        ensures
            state == Ok::<Option<&Self>, ProviderError>(Some(self)),
    {
        Ok(Some(self))
    }

    /// No database provider can be opened: the node counts as syncing.
    pub fn database_provider_ro(&self) -> (provider: ProviderResult<&Self>)
        ensures
            provider == Err::<&Self, ProviderError>(
                ProviderError::ConsistentView(
                    ConsistentViewError::Syncing {
                        best_block: GotExpected { got: 0, expected: 0 },
                    },
                ),
            ),
    {
        Err(
            ProviderError::ConsistentView(
                ConsistentViewError::Syncing { best_block: GotExpected { got: 0, expected: 0 } },
            ),
        )
    }

    /// No database provider can be opened: the node counts as syncing.
    pub fn database_provider_rw(&self) -> (provider: ProviderResult<&Self>)
        ensures
            provider == Err::<&Self, ProviderError>(
                ProviderError::ConsistentView(
                    ConsistentViewError::Syncing {
                        best_block: GotExpected { got: 0, expected: 0 },
                    },
                ),
            ),
    {
        Err(
            ProviderError::ConsistentView(
                ConsistentViewError::Syncing { best_block: GotExpected { got: 0, expected: 0 } },
            ),
        )
    }

    /// No stage has a checkpoint.
    pub fn get_stage_checkpoint(&self, _id: StageId) -> (found: ProviderResult<
        Option<StageCheckpoint>,
    >)
        ensures
            found == Ok::<Option<StageCheckpoint>, ProviderError>(None),
    {
        Ok(None)
    }

    /// No stage has made progress.
    pub fn get_stage_checkpoint_progress(&self, _id: StageId) -> (found: ProviderResult<
        Option<Vec<u8>>,
    >)
        ensures
            found == Ok::<Option<Vec<u8>>, ProviderError>(None),
    {
        Ok(None)
    }

    /// No stage has a checkpoint.
    pub fn get_all_checkpoints(&self) -> (found: ProviderResult<Vec<(String, StageCheckpoint)>>)
        ensures
            found is Ok && found->Ok_0@ == Seq::<(String, StageCheckpoint)>::empty(),
    {
        Ok(Vec::new())
    }

    /// No changes of accounts are stored.
    pub fn account_block_changeset(&self, _block_number: BlockNumber) -> (found: ProviderResult<
        Vec<AccountBeforeTx>,
    >)
        ensures
            found is Ok && found->Ok_0@ == Seq::<AccountBeforeTx>::empty(),
    {
        Ok(Vec::new())
    }

    /// No outcomes of execution are stored.
    pub fn get_state(&self, _block: BlockNumber) -> (found: ProviderResult<
        Option<ExecutionOutcome>,
    >)
        ensures
            found == Ok::<Option<ExecutionOutcome>, ProviderError>(None),
    {
        Ok(None)
    }

    /// Subscribes to changes of the canonical chain, of which there are none: nothing is there to
    /// be read, and no sender is left that could send anything.
    pub fn subscribe_to_canonical_state(&self) -> (receiver: tokio::sync::broadcast::Receiver<
        CanonStateNotification,
    >)
        ensures
            unread_notifications(receiver) == Seq::<CanonStateNotification>::empty(),
            live_senders(receiver) == 0,
            channel_capacity(receiver) == 1,
    {
        receiver_without_sender(1)
    }
}

} // verus!
