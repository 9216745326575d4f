//! The provider: what it stores, and how it is filled.

use crate::account::{ExtendedAccount, ExtendedAccountView};
use crate::block::{Block, BlockView};
use crate::header::{Header, HeaderView};
use crate::primitives::{Address, B256};
use crate::store::{
    entries_view, insert_all, lemma_insert_all_view, map_default, map_insert, map_view,
};
use crate::store_laws::lemma_added_header;
use crate::transaction::TransactionSigned;
use crate::types::{ChainSpec, PruneModes, TxMock};
use alloy_primitives::map::HashMap;
use std::sync::Arc;
use vstd::prelude::*;

verus! {

/// An in-memory provider of blocks, headers, accounts and state roots.
#[derive(Debug)]
#[verifier::reject_recursive_types(T)]
pub struct MockEthProvider<T = TransactionSigned, C = ChainSpec> {
    /// The blocks, by hash.
    pub blocks: HashMap<B256, Block<T>>,
    /// The headers, by hash.
    pub headers: HashMap<B256, Header>,
    /// The accounts, by address.
    pub accounts: HashMap<Address, ExtendedAccount>,
    /// The chain specification.
    pub chain_spec: Arc<C>,
    /// The state roots that are yet to be handed out, the next one last.
    pub state_roots: Vec<B256>,
    /// The database transaction.
    pub tx: TxMock,
    /// How history is pruned.
    pub prune_modes: Arc<PruneModes>,
}

impl<T, C> MockEthProvider<T, C> {
    /// The stored headers.
    pub open spec fn header_map(self) -> Map<B256, HeaderView> {
        map_view(self.headers@)
    }

    /// The stored accounts.
    pub open spec fn account_map(self) -> Map<Address, ExtendedAccountView> {
        map_view(self.accounts@)
    }

    /// Whether every stored block has a stored header.
    pub open spec fn blocks_have_headers(self) -> bool {
        forall|hash: B256| #[trigger]
            self.blocks@.contains_key(hash) ==> self.headers@.contains_key(hash)
    }
}

impl<T: View, C> MockEthProvider<T, C> {
    /// The stored blocks.
    pub open spec fn block_map(self) -> Map<B256, BlockView<T::V>> {
        map_view(self.blocks@)
    }
}

/// The headers of blocks, each with the hash of its block.
pub open spec fn headers_of_blocks<T>(blocks: Seq<(B256, Block<T>)>) -> Seq<(B256, HeaderView)> {
    blocks.map_values(|entry: (B256, Block<T>)| (entry.0, entry.1.header@))
}

impl<T> MockEthProvider<T> {
    /// Creates an empty provider for the main network.
    pub fn new() -> (provider: Self)
        ensures
            provider.blocks@ == Map::<B256, Block<T>>::empty(),
            provider.headers@ == Map::<B256, Header>::empty(),
            provider.accounts@ == Map::<Address, ExtendedAccount>::empty(),
            provider.state_roots@ == Seq::<B256>::empty(),
            provider.chain_spec.chain == 1,
            provider.tx.table@.len() == 0,
            *provider.prune_modes == (PruneModes {
                sender_recovery: None,
                transaction_lookup: None,
                receipts: None,
                account_history: None,
                storage_history: None,
            }),
            provider.blocks_have_headers(),
    {
        MockEthProvider {
            blocks: map_default(),
            headers: map_default(),
            accounts: map_default(),
            chain_spec: Arc::new(ChainSpec::mainnet()),
            state_roots: Vec::new(),
            tx: TxMock::default(),
            prune_modes: Arc::new(PruneModes::default()),
        }
    }
}

impl Default for MockEthProvider {
    /// An empty provider for the main network.
    fn default() -> (provider: Self)
        ensures
            provider.blocks@ == Map::<B256, Block<TransactionSigned>>::empty(),
            provider.headers@ == Map::<B256, Header>::empty(),
            provider.accounts@ == Map::<Address, ExtendedAccount>::empty(),
            provider.state_roots@ == Seq::<B256>::empty(),
            provider.chain_spec.chain == 1,
            provider.tx.table@.len() == 0,
            *provider.prune_modes == (PruneModes {
                sender_recovery: None,
                transaction_lookup: None,
                receipts: None,
                account_history: None,
                storage_history: None,
            }),
            provider.blocks_have_headers(),
    {
        Self::new()
    }
}

impl<T, C> MockEthProvider<T, C> {
    /// Whether two providers agree on all but their blocks and headers.
    pub open spec fn same_besides_chain(self, other: Self) -> bool {
        &&& self.accounts == other.accounts
        &&& self.chain_spec == other.chain_spec
        &&& self.state_roots == other.state_roots
        &&& self.tx == other.tx
        &&& self.prune_modes == other.prune_modes
    }

    /// Whether two providers agree on all but their accounts.
    pub open spec fn same_besides_accounts(self, other: Self) -> bool {
        &&& self.blocks == other.blocks
        &&& self.headers == other.headers
        &&& self.chain_spec == other.chain_spec
        &&& self.state_roots == other.state_roots
        &&& self.tx == other.tx
        &&& self.prune_modes == other.prune_modes
    }

    /// Whether two providers agree on all but their state roots.
    pub open spec fn same_besides_state_roots(self, other: Self) -> bool {
        &&& self.blocks == other.blocks
        &&& self.headers == other.headers
        &&& self.accounts == other.accounts
        &&& self.chain_spec == other.chain_spec
        &&& self.tx == other.tx
        &&& self.prune_modes == other.prune_modes
    }

    /// Adds a block, and its header.
    pub fn add_block(&mut self, hash: B256, block: Block<T>)
        ensures
            final(self).blocks@ == old(self).blocks@.insert(hash, block),
            final(self).header_map() == old(self).header_map().insert(hash, block.header@),
            final(self).same_besides_chain(*old(self)),
            old(self).blocks_have_headers() ==> final(self).blocks_have_headers(),
    {
        self.add_header(hash, block.header.clone());
        map_insert(&mut self.blocks, hash, block);
    }

    /// Adds several blocks, and their headers.
    pub fn extend_blocks(&mut self, blocks: Vec<(B256, Block<T>)>)
        ensures
            final(self).blocks@ == insert_all(old(self).blocks@, blocks@),
            final(self).header_map() == insert_all(
                old(self).header_map(),
                headers_of_blocks(blocks@),
            ),
            forall|i: int|
                0 <= i < blocks@.len() ==> final(self).header_map().get(
                    (#[trigger] blocks@[i]).0,
                ) == Some(final(self).blocks@[blocks@[i].0].header@),
            final(self).same_besides_chain(*old(self)),
            old(self).blocks_have_headers() ==> final(self).blocks_have_headers(),
    {
        let ghost all = blocks@;
        let ghost headers = headers_of_blocks(all);
        assert(all.take(0) =~= Seq::empty());
        assert(headers.take(0) =~= Seq::empty());
        for entry in iter: blocks
            invariant
                iter.seq() == all,
                headers == headers_of_blocks(all),
                self.blocks@ == insert_all(old(self).blocks@, all.take(iter.index())),
                self.header_map() == insert_all(
                    old(self).header_map(),
                    headers.take(iter.index()),
                ),
                self.same_besides_chain(*old(self)),
                old(self).blocks_have_headers() ==> self.blocks_have_headers(),
        {
            let ghost i = iter.index();
            let (hash, block) = entry;
            proof {
                assert(all.take(i + 1).drop_last() =~= all.take(i));
                assert(headers.take(i + 1).drop_last() =~= headers.take(i));
                assert(headers[i] == (hash, block.header@));
            }
            self.add_header(hash, block.header.clone());
            let ghost once = self.header_map();
            self.add_block(hash, block);
            assert(self.header_map() =~= once);
        }
        assert(all.take(all.len() as int) =~= all);
        assert(headers.take(headers.len() as int) =~= headers);
        assert forall|i: int| 0 <= i < all.len() implies self.header_map().get(
            (#[trigger] all[i]).0,
        ) == Some(self.blocks@[all[i].0].header@) by {
            lemma_added_header(old(self).blocks@, old(self).header_map(), all, i);
        }
    }

    /// Adds a header.
    pub fn add_header(&mut self, hash: B256, header: Header)
        ensures
            final(self).headers@ == old(self).headers@.insert(hash, header),
            final(self).header_map() == old(self).header_map().insert(hash, header@),
            final(self).blocks == old(self).blocks,
            final(self).same_besides_chain(*old(self)),
            old(self).blocks_have_headers() ==> final(self).blocks_have_headers(),
    {
        map_insert(&mut self.headers, hash, header);
        assert(self.header_map() =~= old(self).header_map().insert(hash, header@));
    }

    /// Adds several headers.
    pub fn extend_headers(&mut self, headers: Vec<(B256, Header)>)
        ensures
            final(self).headers@ == insert_all(old(self).headers@, headers@),
            final(self).header_map() == insert_all(
                old(self).header_map(),
                entries_view(headers@),
            ),
            final(self).blocks == old(self).blocks,
            final(self).same_besides_chain(*old(self)),
            old(self).blocks_have_headers() ==> final(self).blocks_have_headers(),
    {
        let ghost all = headers@;
        assert(all.take(0) =~= Seq::empty());
        for entry in iter: headers
            invariant
                iter.seq() == all,
                self.headers@ == insert_all(old(self).headers@, all.take(iter.index())),
                self.blocks == old(self).blocks,
                self.same_besides_chain(*old(self)),
                old(self).blocks_have_headers() ==> self.blocks_have_headers(),
        {
            let ghost i = iter.index();
            let (hash, header) = entry;
            assert(all.take(i + 1).drop_last() =~= all.take(i));
            self.add_header(hash, header);
        }
        assert(all.take(all.len() as int) =~= all);
        proof {
            lemma_insert_all_view(old(self).headers@, all);
        }
    }

    /// Adds an account.
    pub fn add_account(&mut self, address: Address, account: ExtendedAccount)
        ensures
            final(self).accounts@ == old(self).accounts@.insert(address, account),
            final(self).account_map() == old(self).account_map().insert(address, account@),
            final(self).same_besides_accounts(*old(self)),
    {
        map_insert(&mut self.accounts, address, account);
        assert(self.account_map() =~= old(self).account_map().insert(address, account@));
    }

    /// Adds several accounts.
    pub fn extend_accounts(&mut self, accounts: Vec<(Address, ExtendedAccount)>)
        ensures
            final(self).accounts@ == insert_all(old(self).accounts@, accounts@),
            final(self).account_map() == insert_all(
                old(self).account_map(),
                entries_view(accounts@),
            ),
            final(self).same_besides_accounts(*old(self)),
    {
        let ghost all = accounts@;
        assert(all.take(0) =~= Seq::empty());
        for entry in iter: accounts
            invariant
                iter.seq() == all,
                self.accounts@ == insert_all(old(self).accounts@, all.take(iter.index())),
                self.same_besides_accounts(*old(self)),
        {
            let ghost i = iter.index();
            let (address, account) = entry;
            assert(all.take(i + 1).drop_last() =~= all.take(i));
            self.add_account(address, account);
        }
        assert(all.take(all.len() as int) =~= all);
        proof {
            lemma_insert_all_view(old(self).accounts@, all);
        }
    }

    /// Adds a state root, which is the next to be handed out.
    pub fn add_state_root(&mut self, state_root: B256)
        ensures
            final(self).state_roots@ == old(self).state_roots@.push(state_root),
            final(self).same_besides_state_roots(*old(self)),
    {
        self.state_roots.push(state_root);
    }

    /// Replaces the chain specification.
    pub fn with_chain_spec<D>(self, chain_spec: D) -> (provider: MockEthProvider<T, D>)
        ensures
            *provider.chain_spec == chain_spec,
            provider.blocks == self.blocks,
            provider.headers == self.headers,
            provider.accounts == self.accounts,
            provider.state_roots == self.state_roots,
            provider.tx == self.tx,
            provider.prune_modes == self.prune_modes,
    {
        MockEthProvider {
            blocks: self.blocks,
            headers: self.headers,
            accounts: self.accounts,
            chain_spec: Arc::new(chain_spec),
            state_roots: self.state_roots,
            tx: self.tx,
            prune_modes: self.prune_modes,
        }
    }

    /// Returns the database transaction.
    pub fn tx_ref(&self) -> (tx: &TxMock)
        ensures
            *tx == self.tx,
    {
        &self.tx
    }

    /// Returns the database transaction for modification.
    pub fn tx_mut(&mut self) -> (tx: &mut TxMock)
        ensures
            *tx == old(self).tx,
            final(self).tx == *final(tx),
            final(self).blocks == old(self).blocks,
            final(self).headers == old(self).headers,
            final(self).accounts == old(self).accounts,
            final(self).chain_spec == old(self).chain_spec,
            final(self).state_roots == old(self).state_roots,
            final(self).prune_modes == old(self).prune_modes,
    {
        &mut self.tx
    }

    /// Turns the provider into its database transaction.
    pub fn into_tx(self) -> (tx: TxMock)
        ensures
            tx == self.tx,
    {
        self.tx
    }

    /// Returns how history is pruned.
    pub fn prune_modes_ref(&self) -> (modes: &PruneModes)
        ensures
            *modes == *self.prune_modes,
    {
        &self.prune_modes
    }

    /// Returns the chain specification.
    pub fn chain_spec(&self) -> (chain_spec: Arc<C>)
        ensures
            chain_spec == self.chain_spec,
    {
        self.chain_spec.clone()
    }
}

} // verus!
