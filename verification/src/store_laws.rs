//! Laws on the stores: what adding leaves, what stays, and what is read of accounts and state.

use crate::account::{code_of, has_code, BytecodeView, ExtendedAccountView};
use crate::block::{Block, BlockNumberOrTag};
use crate::blocks::bodies_view;
use crate::error::ProviderError;
use crate::primitives::{Address, B256};
use crate::provider::{headers_of_blocks, MockEthProvider};
use crate::query_laws::law_entries_are_inserted_in_turn;
use crate::state_provider::{is_code_with_hash, is_next_root, remaining_roots, state_at};
use crate::store::{insert_all, lemma_insert_all};
use vstd::prelude::*;

verus! {

/// What the provider is said to store is what its maps hold, key for key.
pub proof fn law_stores_are_the_maps<T: View, C>(
    provider: MockEthProvider<T, C>,
    hash: B256,
    address: Address,
)
    ensures
        provider.header_map().contains_key(hash) <==> provider.headers@.contains_key(hash),
        provider.headers@.contains_key(hash) ==> provider.header_map()[hash]
            == provider.headers@[hash]@,
        provider.block_map().contains_key(hash) <==> provider.blocks@.contains_key(hash),
        provider.blocks@.contains_key(hash) ==> provider.block_map()[hash]
            == provider.blocks@[hash]@,
        provider.account_map().contains_key(address) <==> provider.accounts@.contains_key(address),
        provider.accounts@.contains_key(address) ==> provider.account_map()[address]
            == provider.accounts@[address]@,
        provider.blocks_have_headers() <==> provider.blocks@.dom().subset_of(
            provider.headers@.dom(),
        ),
{
    if provider.blocks_have_headers() {
        assert forall|key: B256| provider.blocks@.dom().contains(
            key,
        ) implies provider.headers@.dom().contains(key) by {
            assert(provider.blocks@.contains_key(key));
        }
    }
    if provider.blocks@.dom().subset_of(provider.headers@.dom()) {
        assert forall|key: B256| #[trigger]
            provider.blocks@.contains_key(key) implies provider.headers@.contains_key(key) by {
            assert(provider.blocks@.dom().contains(key));
        }
    }
}

/// Adding to one store leaves all others: put the changed stores back, and the provider is what it
/// was.
pub proof fn law_other_stores_stay<T, C>(
    before: MockEthProvider<T, C>,
    after: MockEthProvider<T, C>,
)
    ensures
        after.same_besides_chain(before) <==> before == (MockEthProvider {
            blocks: before.blocks,
            headers: before.headers,
            ..after
        }),
        after.same_besides_accounts(before) <==> before == (MockEthProvider {
            accounts: before.accounts,
            ..after
        }),
        after.same_besides_state_roots(before) <==> before == (MockEthProvider {
            state_roots: before.state_roots,
            ..after
        }),
{
}

/// After a list of blocks was added, the header under each hash of the list is the header of the
/// block under it; under all other hashes, headers are what they were. A list of one block leaves
/// what adding the block leaves.
pub proof fn law_added_blocks_have_their_headers<T, C>(
    before: MockEthProvider<T, C>,
    after: MockEthProvider<T, C>,
    blocks: Seq<(B256, Block<T>)>,
    other: B256,
)
    requires
        after.blocks@ == insert_all(before.blocks@, blocks),
        after.header_map() == insert_all(before.header_map(), headers_of_blocks(blocks)),
    ensures
        forall|i: int|
            0 <= i < blocks.len() ==> {
                let hash = (#[trigger] blocks[i]).0;
                &&& after.blocks@.contains_key(hash)
                &&& after.header_map().contains_key(hash)
                &&& after.header_map()[hash] == after.blocks@[hash].header@
            },
        (forall|i: int| 0 <= i < blocks.len() ==> (#[trigger] blocks[i]).0 != other)
            ==> after.header_map().get(other) == before.header_map().get(other),
        blocks.len() == 1 ==> after.blocks@ == before.blocks@.insert(blocks[0].0, blocks[0].1),
        blocks.len() == 1 ==> after.header_map() == before.header_map().insert(
            blocks[0].0,
            blocks[0].1.header@,
        ),
{
    let headers = headers_of_blocks(blocks);
    assert forall|i: int| 0 <= i < blocks.len() implies {
        let hash = (#[trigger] blocks[i]).0;
        &&& after.blocks@.contains_key(hash)
        &&& after.header_map().contains_key(hash)
        &&& after.header_map()[hash] == after.blocks@[hash].header@
    } by {
        lemma_added_header(before.blocks@, before.header_map(), blocks, i);
    }
    if forall|i: int| 0 <= i < blocks.len() ==> (#[trigger] blocks[i]).0 != other {
        assert forall|i: int| 0 <= i < headers.len() implies (#[trigger] headers[i]).0
            != other by {
            assert(blocks[i].0 != other);
        }
        lemma_insert_all(before.header_map(), headers, other);
    }
    if blocks.len() == 1 {
        let (hash, block) = blocks[0];
        law_entries_are_inserted_in_turn(before.blocks@, Seq::empty(), hash, block);
        law_entries_are_inserted_in_turn(
            before.header_map(),
            Seq::empty(),
            hash,
            block.header@,
        );
        assert(blocks =~= Seq::empty().push((hash, block)));
        assert(headers =~= Seq::empty().push((hash, block.header@)));
    }
}

/// The last block of a list under a hash, and the last header under it, go together.
pub(crate) proof fn lemma_added_header<T>(
    blocks: Map<B256, Block<T>>,
    headers: Map<B256, crate::header::HeaderView>,
    added: Seq<(B256, Block<T>)>,
    i: int,
)
    requires
        0 <= i < added.len(),
    ensures
        insert_all(blocks, added).contains_key(added[i].0),
        insert_all(headers, headers_of_blocks(added)).contains_key(added[i].0),
        insert_all(headers, headers_of_blocks(added))[added[i].0] == insert_all(
            blocks,
            added,
        )[added[i].0].header@,
    decreases added.len(),
{
    let views = headers_of_blocks(added);
    let earlier = added.drop_last();
    assert(views.drop_last() =~= headers_of_blocks(earlier));
    assert(views.last() == (added.last().0, added.last().1.header@));
    if added[i].0 != added.last().0 {
        assert(earlier[i] == added[i]);
        lemma_added_header(blocks, headers, earlier, i);
    }
}

/// There is no state at the finalized and the safe block, and each is refused with its own error.
pub proof fn law_finalized_and_safe_state_are_refused<T, C>(
    provider: MockEthProvider<T, C>,
    number_or_tag: BlockNumberOrTag,
)
    ensures
        state_at(&provider, BlockNumberOrTag::Finalized) == Err::<&MockEthProvider<T, C>, ProviderError>(
            ProviderError::FinalizedBlockNotFound,
        ),
        state_at(&provider, BlockNumberOrTag::Safe) == Err::<&MockEthProvider<T, C>, ProviderError>(
            ProviderError::SafeBlockNotFound,
        ),
        state_at(&provider, number_or_tag) is Ok <==> number_or_tag != BlockNumberOrTag::Finalized
            && number_or_tag != BlockNumberOrTag::Safe,
{
}

/// Code is found by a hash just where a stored account carries the hash and has code, and then the
/// whole code of such an account is found.
pub proof fn law_code_is_that_of_an_account(
    map: Map<Address, ExtendedAccountView>,
    code_hash: B256,
    code: BytecodeView,
    address: Address,
    account: ExtendedAccountView,
)
    ensures
        is_code_with_hash(map, code_hash, Some(code)) <==> exists|holder: Address| #[trigger]
            map.contains_key(holder) && map[holder].account.bytecode_hash == Some(code_hash)
                && map[holder].bytecode == Some(code),
        is_code_with_hash(map, code_hash, None) <==> forall|holder: Address| #[trigger]
            map.contains_key(holder) ==> map[holder].account.bytecode_hash != Some(code_hash)
                || map[holder].bytecode is None,
        code_of(account, code_hash) == Some(code) <==> account.account.bytecode_hash == Some(
            code_hash,
        ) && account.bytecode == Some(code),
        has_code(code_hash)((address, account)) <==> account.account.bytecode_hash == Some(
            code_hash,
        ) && account.bytecode is Some,
{
    if is_code_with_hash(map, code_hash, Some(code)) {
        let holder = choose|holder: Address| #[trigger]
            map.contains_key(holder) && code_of(map[holder], code_hash) == Some(code);
        assert(map.contains_key(holder));
    }
    if exists|holder: Address| #[trigger]
        map.contains_key(holder) && map[holder].account.bytecode_hash == Some(code_hash)
            && map[holder].bytecode == Some(code) {
        let holder = choose|holder: Address| #[trigger]
            map.contains_key(holder) && map[holder].account.bytecode_hash == Some(code_hash)
                && map[holder].bytecode == Some(code);
        assert(code_of(map[holder], code_hash) == Some(code));
    }
    if is_code_with_hash(map, code_hash, None) {
        assert forall|holder: Address| #[trigger] map.contains_key(holder) implies (
        map[holder].account.bytecode_hash != Some(code_hash) || map[holder].bytecode is None) by {
            assert(code_of(map[holder], code_hash) is None);
        }
    }
}

/// The next state root is the last one that is there, and the others are left as they are.
pub proof fn law_next_root_is_the_last(roots: Seq<B256>, root: B256)
    requires
        roots.len() > 0,
    ensures
        is_next_root(roots, root) <==> root == roots[roots.len() - 1],
        remaining_roots(roots) == roots.subrange(0, roots.len() - 1),
{
    assert(remaining_roots(roots) =~= roots.subrange(0, roots.len() - 1));
}

/// The view of lists of transactions has each list in its place, with the views of its items.
pub proof fn law_view_of_bodies<T: View>(bodies: Seq<Vec<T>>)
    ensures
        bodies_view(bodies).len() == bodies.len(),
        forall|i: int|
            0 <= i < bodies.len() ==> (#[trigger] bodies_view(bodies)[i]).len() == bodies[i]@.len(),
        forall|i: int, j: int|
            0 <= i < bodies.len() && 0 <= j < bodies[i]@.len() ==> #[trigger] bodies_view(
                bodies,
            )[i][j] == bodies[i]@[j]@,
{
}

} // verus!
