//! Reading blocks from the provider.

use crate::block::{
    Block, BlockHashOrNumber, BlockId, BlockNumHash, BlockNumberOrTag, BlockSource, BlockView,
    TransactionVariant, Withdrawals,
};
use crate::blocks::{
    self, block_by_id_on, block_on, blocks_of, from_to, hashes_of, is_numbered_block,
    lemma_first_keyed, lemma_first_numbered, tag_number, wanted_numbers, within,
};
use crate::error::{found_view, ProviderError, ProviderResult};
use crate::header::{header_hash, sealed, Header, HeaderView, SealedHeader};
use crate::headers::is_best_number;
use crate::primitives::{opt_view, seq_view, B256, BlockHash, BlockNumber};
use crate::provider::MockEthProvider;
use crate::search::is_sorted_selection;
use crate::store::{entries, is_walk, map_get, walk_view};
use crate::transaction::SignedTransaction;
use crate::types::{Receipt, StoredBlockBodyIndices};
use std::ops::RangeInclusive;
use vstd::prelude::*;

verus! {

/// A block together with its hash.
#[derive(Debug)]
pub struct SealedBlock<T> {
    pub hash: BlockHash,
    pub block: Block<T>,
}

/// A block together with its hash and the senders of its transactions.
#[derive(Debug)]
pub struct RecoveredBlock<T> {
    pub block: SealedBlock<T>,
    pub senders: Vec<crate::primitives::Address>,
}

/// Whether `found` is the block of a map that an identifier names.
pub open spec fn is_named_block<V>(
    map: Map<B256, BlockView<V>>,
    id: BlockHashOrNumber,
    found: Option<BlockView<V>>,
) -> bool {
    match id {
        BlockHashOrNumber::Hash(hash) => found == map.get(hash),
        BlockHashOrNumber::Number(number) => is_numbered_block(map, number, found),
    }
}

/// Whether `found` is the first block that has the hash or number on some walk of the blocks.
pub open spec fn is_first_named<V>(
    map: Map<B256, BlockView<V>>,
    id: BlockHashOrNumber,
    found: Option<BlockView<V>>,
) -> bool {
    exists|walk: Seq<(B256, BlockView<V>)>| #[trigger]
        is_walk(walk, map) && found == block_on(walk, id)
}

/// Whether `number` is what a tag stands for: the greatest number of a header for the latest
/// block, zero for the earliest. The pending, the finalized and the safe block have no number.
pub open spec fn is_tag_number(
    headers: Map<B256, HeaderView>,
    tag: BlockNumberOrTag,
    number: ProviderResult<Option<BlockNumber>>,
) -> bool {
    match tag {
        BlockNumberOrTag::Latest => match number {
            Ok(Some(best)) => is_best_number(headers, best),
            Ok(None) => false,
            Err(error) => {
                &&& error == ProviderError::BestBlockNotFound
                &&& headers == Map::<B256, HeaderView>::empty()
            },
        },
        BlockNumberOrTag::Earliest => number == Ok::<Option<BlockNumber>, ProviderError>(Some(0)),
        BlockNumberOrTag::Number(given) => number == Ok::<Option<BlockNumber>, ProviderError>(
            Some(given),
        ),
        _ => number == Ok::<Option<BlockNumber>, ProviderError>(None),
    }
}

/// Whether `latest` is the greatest number of a header, or the error that there is no header.
pub open spec fn is_latest_number(
    headers: Map<B256, HeaderView>,
    latest: ProviderResult<BlockNumber>,
) -> bool {
    match latest {
        Ok(number) => is_best_number(headers, number),
        Err(error) => {
            &&& error == ProviderError::BestBlockNotFound
            &&& headers == Map::<B256, HeaderView>::empty()
        },
    }
}

/// Whether `found` is the first block that an identifier names on some walk of the blocks, or the
/// error that the identifier has no number.
pub open spec fn is_first_identified<V>(
    headers: Map<B256, HeaderView>,
    blocks: Map<B256, BlockView<V>>,
    id: BlockId,
    found: ProviderResult<Option<BlockView<V>>>,
) -> bool {
    exists|walk: Seq<(B256, BlockView<V>)>, latest: ProviderResult<BlockNumber>|
        #![trigger is_walk(walk, blocks), is_latest_number(headers, latest)]
        is_walk(walk, blocks) && is_latest_number(headers, latest) && found == block_by_id_on(
            walk,
            latest,
            id,
        )
}

/// Whether `found` is the block that a tag names, or the error that the tag has no number.
pub open spec fn is_tagged_block<V>(
    headers: Map<B256, HeaderView>,
    blocks: Map<B256, BlockView<V>>,
    tag: BlockNumberOrTag,
    found: ProviderResult<Option<BlockView<V>>>,
) -> bool {
    exists|number: ProviderResult<Option<BlockNumber>>| #[trigger]
        is_tag_number(headers, tag, number) && match number {
            Ok(Some(number)) => found is Ok && is_numbered_block(blocks, number, found->Ok_0),
            Ok(None) => found == Ok::<Option<BlockView<V>>, ProviderError>(None),
            Err(error) => found == Err::<Option<BlockView<V>>, ProviderError>(error),
        }
}

/// What an identifier names on a walk of the blocks is a block of the map that it names.
proof fn lemma_identified_on_walk<V>(
    headers: Map<B256, HeaderView>,
    blocks: Map<B256, BlockView<V>>,
    walk: Seq<(B256, BlockView<V>)>,
    latest: ProviderResult<BlockNumber>,
    id: BlockId,
)
    requires
        is_walk(walk, blocks),
        is_latest_number(headers, latest),
    ensures
        is_first_identified(headers, blocks, id, block_by_id_on(walk, latest, id)),
        is_identified_block(headers, blocks, id, block_by_id_on(walk, latest, id)),
{
    match id {
        BlockId::Hash(hash) => {
            lemma_first_keyed(walk, blocks, hash.block_hash);
        },
        BlockId::Number(tag) => {
            let number = tag_number(latest, tag);
            assert(is_tag_number(headers, tag, number));
            if let Ok(Some(number)) = number {
                lemma_first_numbered(walk, blocks, number);
            }
        },
    }
}

/// Whether `found` is the block that an identifier names, or the error that it has no number.
pub open spec fn is_identified_block<V>(
    headers: Map<B256, HeaderView>,
    blocks: Map<B256, BlockView<V>>,
    id: BlockId,
    found: ProviderResult<Option<BlockView<V>>>,
) -> bool {
    match id {
        BlockId::Number(tag) => is_tagged_block(headers, blocks, tag, found),
        BlockId::Hash(hash) => found == Ok::<Option<BlockView<V>>, ProviderError>(
            blocks.get(hash.block_hash),
        ),
    }
}

impl<T: View, C> MockEthProvider<T, C> {
    /// Finds the hash of a block with this number.
    pub fn block_hash(&self, number: u64) -> (found: ProviderResult<Option<B256>>)
        ensures
            match found {
                Ok(Some(hash)) => {
                    &&& self.block_map().contains_key(hash)
                    &&& self.block_map()[hash].header.number == number
                },
                Ok(None) => is_numbered_block(self.block_map(), number, None),
                Err(_) => false,
            },
    {
        let walk = entries(&self.blocks);
        proof {
            lemma_first_numbered(walk_view(walk@), self.block_map(), number);
        }
        Ok(blocks::block_hash(walk.as_slice(), number))
    }

    /// Lists the hashes of the blocks numbered from `start` up to but not including `end`, by
    /// ascending number, those with one number in the order of some walk.
    pub fn canonical_hashes_range(&self, start: BlockNumber, end: BlockNumber) -> (found:
        ProviderResult<Vec<B256>>)
        ensures
            found is Ok,
            exists|walk: Seq<(B256, BlockView<T::V>)>| #[trigger]
                is_walk(walk, self.block_map()) && is_sorted_selection(
                    found->Ok_0@,
                    hashes_of(walk),
                    wanted_numbers(walk, from_to(start, end)),
                ),
    {
        let walk = entries(&self.blocks);
        assert(is_walk(walk_view(walk@), self.block_map()));
        Ok(blocks::canonical_hashes_range(walk.as_slice(), start, end))
    }

    /// Finds the number of the block that is stored under a hash.
    pub fn block_number(&self, hash: B256) -> (found: ProviderResult<Option<BlockNumber>>)
        ensures
            found == Ok::<Option<BlockNumber>, ProviderError>(
                match self.block_map().get(hash) {
                    Some(block) => Some(block.header.number),
                    None => None,
                },
            ),
    {
        let walk = entries(&self.blocks);
        proof {
            lemma_first_keyed(walk_view(walk@), self.block_map(), hash);
        }
        Ok(blocks::block_number(walk.as_slice(), &hash))
    }
}

impl<T, C> MockEthProvider<T, C> {
    /// There is no pending block.
    pub fn pending_block_num_hash(&self) -> (found: ProviderResult<Option<BlockNumHash>>)
        ensures
            found == Ok::<Option<BlockNumHash>, ProviderError>(None),
    {
        Ok(None)
    }

    /// There is no safe block.
    pub fn safe_block_num_hash(&self) -> (found: ProviderResult<Option<BlockNumHash>>)
        ensures
            found == Ok::<Option<BlockNumHash>, ProviderError>(None),
    {
        Ok(None)
    }

    /// There is no finalized block.
    pub fn finalized_block_num_hash(&self) -> (found: ProviderResult<Option<BlockNumHash>>)
        ensures
            found == Ok::<Option<BlockNumHash>, ProviderError>(None),
    {
        Ok(None)
    }

    /// Returns the hash of the safe block.
    pub fn safe_block_hash(&self) -> (found: ProviderResult<Option<B256>>)
        ensures
            found == Ok::<Option<B256>, ProviderError>(None),
    {
        match self.safe_block_num_hash()? {
            Some(block) => Ok(Some(block.hash)),
            None => Ok(None),
        }
    }

    /// Returns the hash of the finalized block.
    pub fn finalized_block_hash(&self) -> (found: ProviderResult<Option<B256>>)
        ensures
            found == Ok::<Option<B256>, ProviderError>(None),
    {
        match self.finalized_block_num_hash()? {
            Some(block) => Ok(Some(block.hash)),
            None => Ok(None),
        }
    }

    /// Finds the number that a tag stands for.
    pub fn convert_block_number(&self, tag: BlockNumberOrTag) -> (number: ProviderResult<
        Option<BlockNumber>,
    >)
        ensures
            is_tag_number(self.header_map(), tag, number),
    {
        blocks::number_of_tag(self.best_block_number(), tag)
    }

    /// There is no pending block.
    pub fn pending_block(&self) -> (found: ProviderResult<Option<SealedBlock<T>>>)
        ensures
            found == Ok::<Option<SealedBlock<T>>, ProviderError>(None),
    {
        Ok(None)
    }

    /// There is no pending block.
    pub fn pending_block_with_senders(&self) -> (found: ProviderResult<Option<RecoveredBlock<T>>>)
        ensures
            found == Ok::<Option<RecoveredBlock<T>>, ProviderError>(None),
    {
        Ok(None)
    }

    /// There is no pending block.
    pub fn pending_block_and_receipts(&self) -> (found: ProviderResult<
        Option<(SealedBlock<T>, Vec<Receipt>)>,
    >)
        ensures
            found == Ok::<Option<(SealedBlock<T>, Vec<Receipt>)>, ProviderError>(None),
    {
        Ok(None)
    }

    /// No block comes with its senders.
    pub fn block_with_senders(
        &self,
        _id: BlockHashOrNumber,
        _transaction_kind: TransactionVariant,
    ) -> (found: ProviderResult<Option<RecoveredBlock<T>>>)
        ensures
            found == Ok::<Option<RecoveredBlock<T>>, ProviderError>(None),
    {
        Ok(None)
    }

    /// No block comes with its senders.
    pub fn sealed_block_with_senders(
        &self,
        _id: BlockHashOrNumber,
        _transaction_kind: TransactionVariant,
    ) -> (found: ProviderResult<Option<RecoveredBlock<T>>>)
        ensures
            found == Ok::<Option<RecoveredBlock<T>>, ProviderError>(None),
    {
        Ok(None)
    }

    /// No block comes with its senders.
    pub fn block_with_senders_range(&self, _range: RangeInclusive<BlockNumber>) -> (found:
        ProviderResult<Vec<RecoveredBlock<T>>>)
        ensures
            found is Ok && found->Ok_0@ == Seq::<RecoveredBlock<T>>::empty(),
    {
        Ok(Vec::new())
    }

    /// No block comes with its senders.
    pub fn sealed_block_with_senders_range(&self, _range: RangeInclusive<BlockNumber>) -> (found:
        ProviderResult<Vec<RecoveredBlock<T>>>)
        ensures
            found is Ok && found->Ok_0@ == Seq::<RecoveredBlock<T>>::empty(),
    {
        Ok(Vec::new())
    }

    /// No withdrawals are stored.
    pub fn withdrawals_by_block(&self, _id: BlockHashOrNumber, _timestamp: u64) -> (found:
        ProviderResult<Option<Withdrawals>>)
        ensures
            found == Ok::<Option<Withdrawals>, ProviderError>(None),
    {
        Ok(None)
    }

    /// No ommers are stored.
    pub fn ommers(&self, _id: BlockHashOrNumber) -> (found: ProviderResult<Option<Vec<Header>>>)
        ensures
            found == Ok::<Option<Vec<Header>>, ProviderError>(None),
    {
        Ok(None)
    }

    /// No ommers are stored; fails where the tag has no number.
    pub fn ommers_by_number_or_tag(&self, tag: BlockNumberOrTag) -> (found: ProviderResult<
        Option<Vec<Header>>,
    >)
        ensures
            found == (if tag == BlockNumberOrTag::Latest && self.header_map() == Map::<
                B256,
                HeaderView,
            >::empty() {
                Err::<Option<Vec<Header>>, ProviderError>(ProviderError::BestBlockNotFound)
            } else {
                Ok(None)
            }),
    {
        match self.convert_block_number(tag) {
            Ok(Some(number)) => self.ommers(BlockHashOrNumber::Number(number)),
            Ok(None) => Ok(None),
            Err(error) => Err(error),
        }
    }

    /// No ommers are stored; fails where the identifier has no number.
    pub fn ommers_by_id(&self, id: BlockId) -> (found: ProviderResult<Option<Vec<Header>>>)
        ensures
            found == (if id == BlockId::Number(BlockNumberOrTag::Latest) && self.header_map()
                == Map::<B256, HeaderView>::empty() {
                Err::<Option<Vec<Header>>, ProviderError>(ProviderError::BestBlockNotFound)
            } else {
                Ok(None)
            }),
    {
        match id {
            BlockId::Number(tag) => self.ommers_by_number_or_tag(tag),
            BlockId::Hash(hash) => self.ommers(BlockHashOrNumber::Hash(hash.block_hash)),
        }
    }

    /// No body indices are stored.
    pub fn block_body_indices(&self, _num: u64) -> (found: ProviderResult<
        Option<StoredBlockBodyIndices>,
    >)
        ensures
            found == Ok::<Option<StoredBlockBodyIndices>, ProviderError>(None),
    {
        Ok(None)
    }

    /// No body indices are stored.
    pub fn block_body_indices_range(&self, _range: RangeInclusive<BlockNumber>) -> (found:
        ProviderResult<Vec<StoredBlockBodyIndices>>)
        ensures
            found is Ok && found->Ok_0@ == Seq::<StoredBlockBodyIndices>::empty(),
    {
        Ok(Vec::new())
    }
}

impl<T: SignedTransaction, C> MockEthProvider<T, C> {
    /// Reads the block that is stored under a hash, wherever the lookup is to search.
    pub fn find_block_by_hash(&self, hash: B256, _source: BlockSource) -> (found: ProviderResult<
        Option<Block<T>>,
    >)
        ensures
            found_view(found) == Ok::<Option<BlockView<T::V>>, ProviderError>(
                self.block_map().get(hash),
            ),
    {
        self.block(BlockHashOrNumber::Hash(hash))
    }

    /// Reads a block by its hash or number.
    pub fn block(&self, id: BlockHashOrNumber) -> (found: ProviderResult<Option<Block<T>>>)
        ensures
            found is Ok,
            is_named_block(self.block_map(), id, opt_view(found->Ok_0)),
            id is Number ==> is_first_named(self.block_map(), id, opt_view(found->Ok_0)),
    {
        match id {
            BlockHashOrNumber::Hash(hash) => match map_get(&self.blocks, &hash) {
                Some(block) => Ok(Some(block.duplicate())),
                None => Ok(None),
            },
            BlockHashOrNumber::Number(number) => {
                let walk = entries(&self.blocks);
                assert(is_walk(walk_view(walk@), self.block_map()));
                proof {
                    lemma_first_numbered(walk_view(walk@), self.block_map(), number);
                }
                Ok(blocks::block(walk.as_slice(), id))
            },
        }
    }

    /// Reads the block that is stored under a hash.
    pub fn block_by_hash(&self, hash: B256) -> (found: ProviderResult<Option<Block<T>>>)
        ensures
            found_view(found) == Ok::<Option<BlockView<T::V>>, ProviderError>(
                self.block_map().get(hash),
            ),
    {
        self.block(BlockHashOrNumber::Hash(hash))
    }

    /// Reads the block that a tag names.
    pub fn block_by_number_or_tag(&self, tag: BlockNumberOrTag) -> (found: ProviderResult<
        Option<Block<T>>,
    >)
        ensures
            is_tagged_block(self.header_map(), self.block_map(), tag, found_view(found)),
            is_first_identified(
                self.header_map(),
                self.block_map(),
                BlockId::Number(tag),
                found_view(found),
            ),
    {
        self.block_by_id(BlockId::Number(tag))
    }

    /// Reads the block that an identifier names.
    pub fn block_by_id(&self, id: BlockId) -> (found: ProviderResult<Option<Block<T>>>)
        ensures
            is_identified_block(self.header_map(), self.block_map(), id, found_view(found)),
            is_first_identified(self.header_map(), self.block_map(), id, found_view(found)),
    {
        let latest = self.best_block_number();
        let walk = entries(&self.blocks);
        proof {
            lemma_identified_on_walk(
                self.header_map(),
                self.block_map(),
                walk_view(walk@),
                latest,
                id,
            );
        }
        blocks::block_by_id(walk.as_slice(), latest, id)
    }

    /// Reads the header of the block that an identifier names.
    pub fn header_by_id(&self, id: BlockId) -> (found: ProviderResult<Option<Header>>)
        ensures
            exists|block: ProviderResult<Option<BlockView<T::V>>>|
                is_identified_block(self.header_map(), self.block_map(), id, block)
                    && #[trigger] is_first_identified(
                    self.header_map(),
                    self.block_map(),
                    id,
                    block,
                ) && found_view(found) == header_part(block),
            id matches BlockId::Hash(hash) ==> found_view(found) == Ok::<_, ProviderError>(
                match self.block_map().get(hash.block_hash) {
                    Some(block) => Some(block.header),
                    None => None,
                },
            ),
            id matches BlockId::Number(BlockNumberOrTag::Number(number)) ==> match found {
                Ok(Some(header)) => header@.number == number,
                Ok(None) => is_numbered_block(self.block_map(), number, None),
                Err(_) => false,
            },
            found matches Ok(Some(header)) ==> exists|hash: B256| #[trigger]
                self.block_map().contains_key(hash) && self.block_map()[hash].header == header@,
    {
        match self.block_by_id(id) {
            Ok(None) => Ok(None),
            Ok(Some(block)) => Ok(Some(block.header)),
            Err(error) => Err(error),
        }
    }

    /// Reads the header of the block that an identifier names, and seals it.
    pub fn sealed_header_by_id(&self, id: BlockId) -> (found: ProviderResult<Option<SealedHeader>>)
        ensures
            exists|block: ProviderResult<Option<BlockView<T::V>>>|
                is_identified_block(self.header_map(), self.block_map(), id, block)
                    && #[trigger] is_first_identified(
                    self.header_map(),
                    self.block_map(),
                    id,
                    block,
                ) && match (
                header_part(block),
                found,
            ) {
                (Ok(Some(header)), Ok(Some(sealed_header))) => sealed_header@ == sealed(header),
                (Ok(None), Ok(None)) => true,
                (Err(expected), Err(error)) => error == expected,
                _ => false,
            },
            id matches BlockId::Hash(hash) ==> match found {
                Ok(Some(sealed_header)) => self.block_map().contains_key(hash.block_hash)
                    && sealed_header.header@ == self.block_map()[hash.block_hash].header,
                Ok(None) => !self.block_map().contains_key(hash.block_hash),
                Err(_) => false,
            },
            id matches BlockId::Number(BlockNumberOrTag::Number(number)) ==> match found {
                Ok(Some(sealed_header)) => sealed_header.header@.number == number,
                Ok(None) => is_numbered_block(self.block_map(), number, None),
                Err(_) => false,
            },
            found matches Ok(Some(sealed_header)) ==> {
                &&& sealed_header.hash == header_hash(sealed_header.header@)
                &&& exists|hash: B256| #[trigger]
                    self.block_map().contains_key(hash) && self.block_map()[hash].header
                        == sealed_header.header@
            },
    {
        match self.header_by_id(id) {
            Ok(None) => Ok(None),
            Ok(Some(header)) => Ok(Some(SealedHeader::seal_slow(header))),
            Err(error) => Err(error),
        }
    }

    /// Reads the blocks whose numbers lie in a range, by ascending number, those with one number
    /// in the order of some walk.
    pub fn block_range(&self, range: RangeInclusive<BlockNumber>) -> (found: ProviderResult<
        Vec<Block<T>>,
    >)
        ensures
            found is Ok,
            exists|walk: Seq<(B256, BlockView<T::V>)>| #[trigger]
                is_walk(walk, self.block_map()) && is_sorted_selection(
                    seq_view(found->Ok_0@),
                    blocks_of(walk),
                    wanted_numbers(walk, within(range)),
                ),
    {
        let walk = entries(&self.blocks);
        assert(is_walk(walk_view(walk@), self.block_map()));
        Ok(blocks::block_range(walk.as_slice(), &range))
    }
}

/// The header of a block that was found.
pub open spec fn header_part<V>(found: ProviderResult<Option<BlockView<V>>>) -> ProviderResult<
    Option<HeaderView>,
> {
    match found {
        Ok(Some(block)) => Ok(Some(block.header)),
        Ok(None) => Ok(None),
        Err(error) => Err(error),
    }
}

} // verus!
