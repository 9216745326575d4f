//! Reading transactions from the provider.
//!
//! Transactions are numbered in the order of a walk over the stored blocks, so a number means the
//! same transaction only as long as the blocks are walked in the same order.

use crate::block::{BlockHashOrNumber, BlockView};
use crate::block_reader::{is_first_named, is_named_block};
use crate::blocks::{self, bodies_of, bodies_view, last_numbers_in_range};
use crate::error::{found_view, ProviderError, ProviderResult};
use crate::primitives::{opt_view, seq_view, Address, B256, BlockNumber, TxHash, TxNumber};
use crate::provider::MockEthProvider;
use crate::range::NumberRange;
use crate::search::{first_match, first_position, is_sorted_selection};
use crate::store::{entries, is_walk, walk_view};
use crate::transaction::{SignedTransaction, SignerError, TransactionMeta};
use crate::transactions::{
    self, has_hash, holds_number, is_stored, items_in_range, known_signers, lemma_location,
    lemma_search_finds_stored, location, meta_of, nth, tx_list,
};
use crate::types::Receipt;
use vstd::prelude::*;

verus! {

impl<T: SignedTransaction, C> MockEthProvider<T, C> {
    /// Finds the number of a transaction with this hash.
    pub fn transaction_id(&self, tx_hash: TxHash) -> (id: ProviderResult<Option<TxNumber>>)
        ensures
            id is Ok,
            id->Ok_0 is Some <==> is_stored(self.block_map(), has_hash::<T>(tx_hash)),
            exists|walk: Seq<(B256, BlockView<T::V>)>| #[trigger]
                is_walk(walk, self.block_map()) && match (
                first_position(tx_list(walk), has_hash::<T>(tx_hash)),
                id->Ok_0,
            ) {
                (Some(position), Some(number)) => number == position,
                (None, None) => true,
                _ => false,
            },
    {
        let walk = entries(&self.blocks);
        assert(is_walk(walk_view(walk@), self.block_map()));
        proof {
            lemma_search_finds_stored(walk_view(walk@), self.block_map(), has_hash::<T>(tx_hash));
        }
        Ok(transactions::transaction_id(walk.as_slice(), &tx_hash))
    }

    /// Reads the transaction with this number.
    pub fn transaction_by_id(&self, id: TxNumber) -> (tx: ProviderResult<Option<T>>)
        ensures
            exists|walk: Seq<(B256, BlockView<T::V>)>| #[trigger]
                is_walk(walk, self.block_map()) && found_view(tx) == Ok::<
                    Option<T::V>,
                    ProviderError,
                >(nth(tx_list(walk), id)),
    {
        let walk = entries(&self.blocks);
        assert(is_walk(walk_view(walk@), self.block_map()));
        Ok(transactions::transaction_by_id(walk.as_slice(), id))
    }

    /// Reads the transaction with this number.
    pub fn transaction_by_id_unhashed(&self, id: TxNumber) -> (tx: ProviderResult<Option<T>>)
        ensures
            exists|walk: Seq<(B256, BlockView<T::V>)>| #[trigger]
                is_walk(walk, self.block_map()) && found_view(tx) == Ok::<
                    Option<T::V>,
                    ProviderError,
                >(nth(tx_list(walk), id)),
    {
        let walk = entries(&self.blocks);
        assert(is_walk(walk_view(walk@), self.block_map()));
        Ok(transactions::transaction_by_id(walk.as_slice(), id))
    }

    /// Reads a transaction with this hash.
    pub fn transaction_by_hash(&self, hash: TxHash) -> (tx: ProviderResult<Option<T>>)
        ensures
            tx is Ok,
            tx->Ok_0 is Some <==> is_stored(self.block_map(), has_hash::<T>(hash)),
            tx matches Ok(Some(found)) ==> T::hash_of(found@) == hash,
            exists|walk: Seq<(B256, BlockView<T::V>)>| #[trigger]
                is_walk(walk, self.block_map()) && opt_view(tx->Ok_0) == first_match(
                    tx_list(walk),
                    has_hash::<T>(hash),
                ),
    {
        let walk = entries(&self.blocks);
        assert(is_walk(walk_view(walk@), self.block_map()));
        proof {
            lemma_search_finds_stored(walk_view(walk@), self.block_map(), has_hash::<T>(hash));
        }
        Ok(transactions::transaction_by_hash(walk.as_slice(), &hash))
    }

    /// Reads a transaction with this hash, and says where it stands.
    pub fn transaction_by_hash_with_meta(&self, hash: TxHash) -> (found: ProviderResult<
        Option<(T, TransactionMeta)>,
    >)
        ensures
            found is Ok,
            found->Ok_0 is Some <==> is_stored(self.block_map(), has_hash::<T>(hash)),
            found matches Ok(Some((tx, meta))) ==> {
                &&& T::hash_of(tx@) == hash
                &&& self.block_map().contains_key(meta.block_hash)
                &&& meta.index < self.block_map()[meta.block_hash].transactions.len()
                &&& tx@ == self.block_map()[meta.block_hash].transactions[meta.index as int]
                &&& meta.tx_hash == hash
                &&& meta.block_number == self.block_map()[meta.block_hash].header.number
                &&& meta.base_fee == self.block_map()[meta.block_hash].header.base_fee_per_gas
                &&& meta.excess_blob_gas
                    == self.block_map()[meta.block_hash].header.excess_blob_gas
                &&& meta.timestamp == self.block_map()[meta.block_hash].header.timestamp
            },
            exists|walk: Seq<(B256, BlockView<T::V>)>| #[trigger]
                is_walk(walk, self.block_map()) && match (
                location(walk, has_hash::<T>(hash)),
                found->Ok_0,
            ) {
                (Some((b, i)), Some((tx, meta))) => {
                    &&& tx@ == walk[b].1.transactions[i]
                    &&& meta == meta_of(walk[b], hash, i)
                },
                (None, None) => true,
                _ => false,
            },
    {
        let walk = entries(&self.blocks);
        assert(is_walk(walk_view(walk@), self.block_map()));
        let found = transactions::transaction_by_hash_with_meta(walk.as_slice(), hash);
        proof {
            let views = walk_view(walk@);
            let p = has_hash::<T>(hash);
            lemma_search_finds_stored(views, self.block_map(), p);
            lemma_location(views, p);
            if let Some((b, i)) = location(views, p) {
                assert(self.block_map().contains_key(views[b].0));
                assert(walk@[b].1.body.transactions.len() == views[b].1.transactions.len());
            }
        }
        Ok(found)
    }

    /// Finds the number of the block that holds the transaction with this number.
    pub fn transaction_block(&self, id: TxNumber) -> (number: ProviderResult<Option<BlockNumber>>)
        ensures
            number is Ok,
            exists|walk: Seq<(B256, BlockView<T::V>)>| #[trigger]
                is_walk(walk, self.block_map()) && match number->Ok_0 {
                Some(number) => exists|b: int| #[trigger]
                    holds_number(walk, b, id as int) && number == walk[b].1.header.number,
                None => id >= tx_list(walk).len(),
            },
    {
        let walk = entries(&self.blocks);
        assert(is_walk(walk_view(walk@), self.block_map()));
        Ok(transactions::transaction_block(walk.as_slice(), id))
    }

    /// Reads the transactions of a block.
    pub fn transactions_by_block(&self, id: BlockHashOrNumber) -> (found: ProviderResult<
        Option<Vec<T>>,
    >)
        ensures
            found is Ok,
            exists|block: Option<BlockView<T::V>>| #[trigger]
                is_named_block(self.block_map(), id, block) && (id is Number ==> is_first_named(
                    self.block_map(),
                    id,
                    block,
                )) && match (block, found->Ok_0) {
                (Some(block), Some(body)) => seq_view(body@) == block.transactions,
                (None, None) => true,
                _ => false,
            },
    {
        match self.block(id)? {
            Some(block) => Ok(Some(block.body.transactions)),
            None => Ok(None),
        }
    }

    /// Reads the transactions of the blocks whose numbers lie in a range, block by block and by
    /// ascending number. Where several blocks have one number, the last of the walk stands for it.
    pub fn transactions_by_block_range(&self, range: NumberRange) -> (found: ProviderResult<
        Vec<Vec<T>>,
    >)
        ensures
            found is Ok,
            exists|walk: Seq<(B256, BlockView<T::V>)>| #[trigger]
                is_walk(walk, self.block_map()) && is_sorted_selection(
                    bodies_view(found->Ok_0@),
                    bodies_of(walk),
                    last_numbers_in_range(walk, range),
                ),
    {
        let walk = entries(&self.blocks);
        assert(is_walk(walk_view(walk@), self.block_map()));
        Ok(blocks::transactions_by_block_range(walk.as_slice(), &range))
    }

    /// Reads the transactions whose numbers lie in a range.
    pub fn transactions_by_tx_range(&self, range: NumberRange) -> (found: ProviderResult<Vec<T>>)
        ensures
            found is Ok,
            exists|walk: Seq<(B256, BlockView<T::V>)>| #[trigger]
                is_walk(walk, self.block_map()) && seq_view(found->Ok_0@) == items_in_range(
                    tx_list(walk),
                    range,
                ),
    {
        let walk = entries(&self.blocks);
        assert(is_walk(walk_view(walk@), self.block_map()));
        Ok(transactions::transactions_by_tx_range(walk.as_slice(), &range))
    }

    /// Recovers the signers of the transactions whose numbers lie in a range, leaving out those
    /// that cannot be recovered.
    pub fn senders_by_tx_range(&self, range: NumberRange) -> (found: ProviderResult<Vec<Address>>)
        ensures
            found is Ok,
            exists|walk: Seq<(B256, BlockView<T::V>)>| #[trigger]
                is_walk(walk, self.block_map()) && found->Ok_0@ == known_signers::<T>(
                    items_in_range(tx_list(walk), range),
                ),
    {
        let walk = entries(&self.blocks);
        assert(is_walk(walk_view(walk@), self.block_map()));
        Ok(transactions::senders_by_tx_range(walk.as_slice(), &range))
    }

    /// Recovers the signer of the transaction with this number, which must be recoverable.
    pub fn transaction_sender(&self, id: TxNumber) -> (sender: ProviderResult<Option<Address>>)
        requires
            forall|walk: Seq<(B256, BlockView<T::V>)>| #[trigger]
                is_walk(walk, self.block_map()) ==> (nth(tx_list(walk), id) matches Some(tx)
                    ==> T::signer_of(tx) is Some),
        ensures
            exists|walk: Seq<(B256, BlockView<T::V>)>| #[trigger]
                is_walk(walk, self.block_map()) && sender == Ok::<Option<Address>, ProviderError>(
                    match nth(tx_list(walk), id) {
                        Some(tx) => T::signer_of(tx),
                        None => None,
                    },
                ),
    {
        let walk = entries(&self.blocks);
        assert(is_walk(walk_view(walk@), self.block_map()));
        Ok(transactions::transaction_sender(walk.as_slice(), id))
    }

    /// Recovers the signer of the transaction with this number, or says that it cannot be
    /// recovered.
    pub fn try_transaction_sender(&self, id: TxNumber) -> (sender: ProviderResult<
        Result<Option<Address>, SignerError>,
    >)
        ensures
            exists|walk: Seq<(B256, BlockView<T::V>)>| #[trigger]
                is_walk(walk, self.block_map()) && sender == Ok::<
                    Result<Option<Address>, SignerError>,
                    ProviderError,
                >(
                    match nth(tx_list(walk), id) {
                        Some(tx) => match T::signer_of(tx) {
                            Some(signer) => Ok::<Option<Address>, SignerError>(Some(signer)),
                            None => Err(SignerError),
                        },
                        None => Ok(None),
                    },
                ),
    {
        let walk = entries(&self.blocks);
        assert(is_walk(walk_view(walk@), self.block_map()));
        Ok(transactions::try_transaction_sender(walk.as_slice(), id))
    }
}

impl<T, C> MockEthProvider<T, C> {
    /// No receipts are stored.
    pub fn receipt(&self, _id: TxNumber) -> (found: ProviderResult<Option<Receipt>>)
        ensures
            found == Ok::<Option<Receipt>, ProviderError>(None),
    {
        Ok(None)
    }

    /// No receipts are stored.
    pub fn receipt_by_hash(&self, _hash: TxHash) -> (found: ProviderResult<Option<Receipt>>)
        ensures
            found == Ok::<Option<Receipt>, ProviderError>(None),
    {
        Ok(None)
    }

    /// No receipts are stored.
    pub fn receipts_by_block(&self, _block: BlockHashOrNumber) -> (found: ProviderResult<
        Option<Vec<Receipt>>,
    >)
        ensures
            found == Ok::<Option<Vec<Receipt>>, ProviderError>(None),
    {
        Ok(None)
    }

    /// No receipts are stored.
    pub fn receipts_by_tx_range(&self, _range: NumberRange) -> (found: ProviderResult<Vec<Receipt>>)
        ensures
            found is Ok && found->Ok_0@ == Seq::<Receipt>::empty(),
    {
        Ok(Vec::new())
    }
}

} // verus!
