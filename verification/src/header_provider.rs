//! Reading headers from the provider.

use crate::block::ChainInfo;
use crate::error::{found_view, ProviderError, ProviderResult};
use crate::header::{header_hash, sealed, Header, HeaderView, SealedHeader};
use crate::headers::{
    self, asked_while, headers_of, is_best_number, is_numbered_header, is_sealed_while,
    lemma_best_of_walk, lemma_first_numbered, lemma_total_below, numbers_in_range, total_below,
    HeaderPredicate,
};
use crate::primitives::{opt_view, seq_view, u256_modulus, B256, BlockHash, BlockNumber, U256};
use crate::provider::MockEthProvider;
use crate::range::NumberRange;
use crate::search::is_sorted_selection;
use crate::store::{entries, is_walk, map_get, walk_view};
use vstd::prelude::*;

verus! {

/// Whether `found` holds the headers of a map whose numbers lie in a range: by ascending number,
/// those with one number in the order of some walk.
pub open spec fn is_headers_range(
    map: Map<B256, HeaderView>,
    range: NumberRange,
    found: Seq<HeaderView>,
) -> bool {
    exists|walk: Seq<(B256, HeaderView)>| #[trigger]
        is_walk(walk, map) && is_sorted_selection(
            found,
            headers_of(walk),
            numbers_in_range(walk, range),
        )
}

/// The total difficulty of a header: its own difficulty and that of all headers with a smaller
/// number, modulo 2^256.
pub open spec fn total_difficulty(map: Map<B256, HeaderView>, target: HeaderView) -> nat {
    (target.difficulty + total_below(map, target.number as int)) % u256_modulus()
}

impl<T, C> MockEthProvider<T, C> {
    /// Reads the header that is stored under a hash.
    pub fn header(&self, block_hash: &BlockHash) -> (found: ProviderResult<Option<Header>>)
        ensures
            found_view(found) == Ok::<Option<HeaderView>, ProviderError>(
                self.header_map().get(*block_hash),
            ),
    {
        match map_get(&self.headers, block_hash) {
            Some(header) => Ok(Some(header.clone())),
            None => Ok(None),
        }
    }

    /// Finds a header with this number.
    pub fn header_by_number(&self, num: u64) -> (found: ProviderResult<Option<Header>>)
        ensures
            found is Ok,
            is_numbered_header(self.header_map(), num, opt_view(found->Ok_0)),
    {
        let walk = entries(&self.headers);
        proof {
            lemma_first_numbered(walk_view(walk@), self.header_map(), num);
        }
        Ok(headers::header_by_number(walk.as_slice(), num))
    }

    /// Computes the total difficulty of the header that is stored under a hash.
    pub fn header_td(&self, hash: &BlockHash) -> (td: ProviderResult<Option<U256>>)
        ensures
            found_view(td) == Ok::<Option<nat>, ProviderError>(
                match self.header_map().get(*hash) {
                    Some(target) => Some(total_difficulty(self.header_map(), target)),
                    None => None,
                },
            ),
    {
        match map_get(&self.headers, hash) {
            Some(target) => {
                let walk = entries(&self.headers);
                proof {
                    lemma_total_below(
                        walk_view(walk@),
                        self.header_map(),
                        target@.number as int,
                    );
                }
                Ok(Some(headers::header_td(walk.as_slice(), target)))
            },
            None => Ok(None),
        }
    }

    /// Adds the difficulties of all headers up to a number.
    pub fn header_td_by_number(&self, number: BlockNumber) -> (td: ProviderResult<Option<U256>>)
        ensures
            found_view(td) == Ok::<Option<nat>, ProviderError>(
                Some(total_below(self.header_map(), number + 1) % u256_modulus()),
            ),
    {
        let walk = entries(&self.headers);
        proof {
            lemma_total_below(walk_view(walk@), self.header_map(), number + 1);
        }
        Ok(Some(headers::header_td_by_number(walk.as_slice(), number)))
    }

    /// Reads the headers whose numbers lie in a range, by ascending number.
    pub fn headers_range(&self, range: NumberRange) -> (found: ProviderResult<Vec<Header>>)
        ensures
            found is Ok,
            is_headers_range(self.header_map(), range, seq_view(found->Ok_0@)),
    {
        let walk = entries(&self.headers);
        Ok(headers::headers_range(walk.as_slice(), &range))
    }

    /// Finds a header with this number, and seals it.
    pub fn sealed_header(&self, number: BlockNumber) -> (found: ProviderResult<
        Option<SealedHeader>,
    >)
        ensures
            match found {
                Ok(Some(sealed_header)) => {
                    &&& is_numbered_header(
                        self.header_map(),
                        number,
                        Some(sealed_header@.header),
                    )
                    &&& sealed_header@ == sealed(sealed_header@.header)
                    &&& sealed_header.hash == header_hash(sealed_header.header@)
                },
                Ok(None) => is_numbered_header(self.header_map(), number, None),
                Err(_) => false,
            },
    {
        match self.header_by_number(number)? {
            Some(header) => Ok(Some(SealedHeader::seal_slow(header))),
            None => Ok(None),
        }
    }

    /// Seals the headers whose numbers lie in a range, by ascending number, up to the first one
    /// that the predicate turns down.
    pub fn sealed_headers_while<F: FnMut(&SealedHeader) -> bool>(
        &self,
        range: NumberRange,
        predicate: F,
    ) -> (found: ProviderResult<Vec<SealedHeader>>)
        requires
            forall|header: SealedHeader| call_requires(predicate, (&header,)),
        ensures
            found is Ok,
            exists|in_range: Seq<HeaderView>| #[trigger]
                is_headers_range(self.header_map(), range, in_range) && is_sealed_while(
                    predicate,
                    in_range,
                    found->Ok_0@,
                ),
            forall|i: int|
                0 <= i < found->Ok_0@.len() ==> (#[trigger] found->Ok_0@[i]).hash == header_hash(
                    found->Ok_0@[i].header@,
                ),
    {
        let mut predicate = HeaderPredicate::new(predicate);
        self.sealed_headers_while_asking(range, &mut predicate)
    }

    /// Seals the headers whose numbers lie in a range, by ascending number, up to the first one
    /// that the predicate turns down. The predicate is asked about the headers that are kept, in
    /// order and once each, and then about the one that is turned down.
    pub fn sealed_headers_while_asking<F: FnMut(&SealedHeader) -> bool>(
        &self,
        range: NumberRange,
        predicate: &mut HeaderPredicate<F>,
    ) -> (found: ProviderResult<Vec<SealedHeader>>)
        requires
            forall|header: SealedHeader| call_requires(old(predicate).predicate(), (&header,)),
        ensures
            found is Ok,
            final(predicate).predicate() == old(predicate).predicate(),
            exists|in_range: Seq<HeaderView>| #[trigger]
                is_headers_range(self.header_map(), range, in_range) && is_sealed_while(
                    old(predicate).predicate(),
                    in_range,
                    found->Ok_0@,
                ) && final(predicate).asked() == old(predicate).asked() + asked_while(
                    in_range,
                    found->Ok_0@.len(),
                ),
            forall|i: int|
                0 <= i < found->Ok_0@.len() ==> (#[trigger] found->Ok_0@[i]).hash == header_hash(
                    found->Ok_0@[i].header@,
                ),
    {
        let in_range = self.headers_range(range)?;
        Ok(headers::sealed_headers_while(in_range, predicate))
    }

    /// Finds the greatest number of a stored header.
    pub fn best_block_number(&self) -> (best: ProviderResult<BlockNumber>)
        ensures
            match best {
                Ok(number) => is_best_number(self.header_map(), number),
                Err(error) => {
                    &&& error == ProviderError::BestBlockNotFound
                    &&& self.header_map() == Map::<B256, HeaderView>::empty()
                },
            },
    {
        let walk = entries(&self.headers);
        match headers::best_block_number(walk.as_slice()) {
            Some(number) => {
                proof {
                    lemma_best_of_walk(walk_view(walk@), self.header_map(), number);
                }
                Ok(number)
            },
            None => {
                assert(self.header_map() =~= Map::<B256, HeaderView>::empty()) by {
                    assert forall|hash: B256| !self.header_map().dom().contains(hash) by {
                        if self.header_map().contains_key(hash) {
                            let i = choose|i: int|
                                0 <= i < walk_view(walk@).len() && (#[trigger] walk_view(
                                    walk@,
                                )[i]).0 == hash;
                        }
                    }
                }
                Err(ProviderError::BestBlockNotFound)
            },
        }
    }

    /// Names the tip of the chain: a stored header with the greatest number.
    pub fn chain_info(&self) -> (info: ProviderResult<ChainInfo>)
        ensures
            match info {
                Ok(info) => {
                    &&& is_best_number(self.header_map(), info.best_number)
                    &&& self.header_map().contains_key(info.best_hash)
                    &&& self.header_map()[info.best_hash].number == info.best_number
                },
                Err(error) => {
                    &&& error == ProviderError::BestBlockNotFound
                    &&& self.header_map() == Map::<B256, HeaderView>::empty()
                },
            },
    {
        let best_number: u64 = self.best_block_number()?;
        let walk = entries(&self.headers);
        proof {
            lemma_first_numbered(walk_view(walk@), self.header_map(), best_number);
        }
        Ok(headers::chain_info(walk.as_slice(), best_number))
    }

    /// Finds the greatest number of a stored header.
    pub fn last_block_number(&self) -> (last: ProviderResult<BlockNumber>)
        ensures
            match last {
                Ok(number) => is_best_number(self.header_map(), number),
                Err(error) => {
                    &&& error == ProviderError::BestBlockNotFound
                    &&& self.header_map() == Map::<B256, HeaderView>::empty()
                },
            },
    {
        self.best_block_number()
    }
}

} // verus!
