//! Laws that relate several operations of the provider.

use crate::account::{code_of, ExtendedAccountView};
use crate::block::{Block, BlockHashOrNumber, BlockId, BlockNumberOrTag, BlockView, RpcBlockHash};
use crate::blocks::{
    block_by_id_on, block_on, blocks_of, bodies_of, from_to, has_number, hashes_of,
    is_numbered_block, last_numbers_in_range, lemma_first_keyed, lemma_first_numbered,
    wanted_numbers,
};
use crate::error::{ProviderError, ProviderResult};
use crate::header::HeaderView;
use crate::header_provider::total_difficulty;
use crate::headers::{
    difficulty_below, headers_of, is_best_number, is_numbered_header, lemma_difficulty_any_walk,
    lemma_difficulty_covers, lemma_total_below, lemma_total_difficulty_at_number, numbers_in_range,
    total_below,
};
use crate::primitives::{is_zero_hash, u256_modulus, Address, B256, BlockNumber, TxHash, TxNumber};
use crate::provider::MockEthProvider;
use crate::range::NumberRange;
use crate::search::{
    comes_before, first_match, first_position, is_first, is_sorted_selection, is_stable_order,
    lemma_ascending_unique, lemma_first_position, lemma_is_first, lemma_stable_order_unique, pick,
};
use crate::state_provider::{is_code_with_hash, is_next_root, remaining_roots, state_at};
use crate::store::{entries_view, insert_all, is_walk, lemma_insert_all, lemma_insert_all_view};
use crate::transaction::SignedTransaction;
use crate::transactions::{
    first_number, has_hash, holds_number, items_in_range, known_signers,
    lemma_block_of_number_unique, lemma_location, lemma_tx_list_any_walk, lemma_tx_list_index,
    location, meta_of, nth, tx_list,
};
use vstd::prelude::*;

verus! {

/// A header that was added is read back under its hash, and headers under other hashes are
/// unaffected.
pub proof fn law_added_header_is_read<T, C>(
    before: MockEthProvider<T, C>,
    after: MockEthProvider<T, C>,
    hash: B256,
    header: HeaderView,
    other: B256,
)
    requires
        after.header_map() == before.header_map().insert(hash, header),
    ensures
        after.header_map().get(hash) == Some(header),
        other != hash ==> after.header_map().get(other) == before.header_map().get(other),
{
}

/// A block that was added is read back under its hash, and blocks under other hashes are
/// unaffected.
pub proof fn law_added_block_is_read<T: View, C>(
    before: MockEthProvider<T, C>,
    after: MockEthProvider<T, C>,
    hash: B256,
    block: Block<T>,
    other: B256,
)
    requires
        after.blocks@ == before.blocks@.insert(hash, block),
    ensures
        after.block_map() == before.block_map().insert(hash, block@),
        after.block_map().get(hash) == Some(block@),
        other != hash ==> after.block_map().get(other) == before.block_map().get(other),
{
    assert(after.block_map() =~= before.block_map().insert(hash, block@));
}

/// An account that was added is read back under its address, and accounts under other addresses
/// are unaffected.
pub proof fn law_added_account_is_read<T, C>(
    before: MockEthProvider<T, C>,
    after: MockEthProvider<T, C>,
    address: Address,
    account: ExtendedAccountView,
    other: Address,
)
    requires
        after.account_map() == before.account_map().insert(address, account),
    ensures
        after.account_map().get(address) == Some(account),
        other != address ==> after.account_map().get(other) == before.account_map().get(other),
{
}

/// The blocks of a list that was added are the stored blocks afterwards: under each hash the last
/// block of the list that has it, and the earlier block where none has it.
pub proof fn law_extended_blocks_are_read<T: View, C>(
    before: MockEthProvider<T, C>,
    after: MockEthProvider<T, C>,
    blocks: Seq<(B256, Block<T>)>,
    hash: B256,
)
    requires
        after.blocks@ == insert_all(before.blocks@, blocks),
    ensures
        after.block_map() == insert_all(before.block_map(), entries_view(blocks)),
        (forall|i: int| 0 <= i < blocks.len() ==> (#[trigger] blocks[i]).0 != hash)
            ==> after.block_map().get(hash) == before.block_map().get(hash),
        forall|i: int|
            0 <= i < blocks.len() && (#[trigger] blocks[i]).0 == hash && (forall|j: int|
                i < j < blocks.len() ==> (#[trigger] blocks[j]).0 != hash)
                ==> after.block_map().get(hash) == Some(blocks[i].1@),
{
    lemma_insert_all_view(before.blocks@, blocks);
    lemma_insert_all(before.blocks@, blocks, hash);
}

/// Adding a list of entries adds them one after the other: what is added in two lists is added as
/// if the lists were one.
pub proof fn law_extending_twice<K, A>(map: Map<K, A>, first: Seq<(K, A)>, second: Seq<(K, A)>)
    ensures
        insert_all(insert_all(map, first), second) == insert_all(map, first + second),
    decreases second.len(),
{
    let both = first + second;
    if second.len() == 0 {
        assert(both =~= first);
    } else {
        law_extending_twice(map, first, second.drop_last());
        assert(both.drop_last() =~= first + second.drop_last());
        assert(both.last() == second.last());
    }
}

/// Adding a list of one entry adds the entry.
pub proof fn law_extending_once<K, A>(map: Map<K, A>, key: K, value: A)
    ensures
        insert_all(map, seq![(key, value)]) == map.insert(key, value),
{
    let entries = seq![(key, value)];
    assert(entries.drop_last() =~= Seq::<(K, A)>::empty());
    assert(insert_all(map, entries.drop_last()) == map);
}

/// The number of a transaction, found by its hash, leads back to the transaction that a search by
/// hash finds.
pub proof fn law_number_leads_to_transaction<T: SignedTransaction>(
    walk: Seq<(B256, BlockView<T::V>)>,
    hash: TxHash,
)
    requires
        tx_list(walk).len() <= usize::MAX,
    ensures
        match first_position(tx_list(walk), has_hash::<T>(hash)) {
            Some(position) => {
                let found = nth(tx_list(walk), position as u64);
                &&& found == first_match(tx_list(walk), has_hash::<T>(hash))
                &&& found matches Some(tx) && T::hash_of(tx) == hash
            },
            None => first_match(tx_list(walk), has_hash::<T>(hash)) is None,
        },
{
    lemma_first_position(tx_list(walk), has_hash::<T>(hash));
}

/// Where no two transactions have one hash, the hash of a transaction leads back to its number.
pub proof fn law_hash_leads_to_number<T: SignedTransaction>(
    walk: Seq<(B256, BlockView<T::V>)>,
    id: int,
)
    requires
        0 <= id < tx_list(walk).len(),
        forall|i: int, j: int|
            0 <= i < j < tx_list(walk).len() ==> T::hash_of(#[trigger] tx_list(walk)[i])
                != T::hash_of(#[trigger] tx_list(walk)[j]),
    ensures
        first_position(tx_list(walk), has_hash::<T>(T::hash_of(tx_list(walk)[id]))) == Some(id),
{
    let p = has_hash::<T>(T::hash_of(tx_list(walk)[id]));
    assert(is_first(tx_list(walk), p, id));
    lemma_is_first(tx_list(walk), p, id);
}

/// The block that holds a number has the transaction with this number at the index that is left
/// when the numbers of earlier blocks are taken off.
pub proof fn law_block_holds_transaction<V>(
    walk: Seq<(B256, BlockView<V>)>,
    b: int,
    id: TxNumber,
)
    requires
        holds_number(walk, b, id as int),
        tx_list(walk).len() <= usize::MAX,
    ensures
        nth(tx_list(walk), id) == Some(walk[b].1.transactions[id - first_number(walk, b)]),
{
    lemma_tx_list_index(walk, b, id - first_number(walk, b));
}

/// A number belongs to one block only.
pub proof fn law_number_has_one_block<V>(
    walk: Seq<(B256, BlockView<V>)>,
    b: int,
    c: int,
    id: TxNumber,
)
    requires
        holds_number(walk, b, id as int),
        holds_number(walk, c, id as int),
    ensures
        b == c,
{
    lemma_block_of_number_unique(walk, b, c, id as int);
}

/// On one walk, all ways to look for a transaction by its hash agree: the transaction that comes
/// with its place is the one that a search by hash finds, and the block it is said to stand in is
/// the block that holds its number.
pub proof fn law_place_agrees_with_number<T: SignedTransaction>(
    walk: Seq<(B256, BlockView<T::V>)>,
    hash: TxHash,
)
    ensures
        match location(walk, has_hash::<T>(hash)) {
            Some((b, i)) => {
                let id = first_position(tx_list(walk), has_hash::<T>(hash));
                &&& id == Some(first_number(walk, b) + i)
                &&& holds_number(walk, b, id->0)
                &&& first_match(tx_list(walk), has_hash::<T>(hash)) == Some(
                    walk[b].1.transactions[i],
                )
                &&& meta_of(walk[b], hash, i).block_number == walk[b].1.header.number
            },
            None => first_position(tx_list(walk), has_hash::<T>(hash)) is None,
        },
{
    lemma_location(walk, has_hash::<T>(hash));
}

/// Whatever the order in which the blocks are walked, the same transactions are numbered, and as
/// many of them.
pub proof fn law_numbered_transactions_any_walk<V>(
    map: Map<B256, BlockView<V>>,
    left: Seq<(B256, BlockView<V>)>,
    right: Seq<(B256, BlockView<V>)>,
)
    requires
        is_walk(left, map),
        is_walk(right, map),
    ensures
        tx_list(left).to_multiset() == tx_list(right).to_multiset(),
        tx_list(left).len() == tx_list(right).len(),
{
    lemma_tx_list_any_walk(left, right, map);
}

/// The transactions of a contiguous range of numbers are those between its ends.
pub proof fn law_range_is_subrange<V>(items: Seq<V>, range: NumberRange, start: int, end: int)
    requires
        items.len() <= u64::MAX,
        0 <= start <= end <= items.len(),
        forall|number: u64|
            number < items.len() ==> (#[trigger] range.holds(number) <==> start <= number < end),
    ensures
        items_in_range(items, range) == items.subrange(start, end),
    decreases items.len(),
{
    if items.len() == 0 {
        assert(items.subrange(start, end) =~= Seq::empty());
    } else {
        let rest = items.drop_last();
        let last = (items.len() - 1) as u64;
        if end == items.len() && start < end {
            law_range_is_subrange(rest, range, start, end - 1);
            assert(range.holds(last));
            assert(items.subrange(start, end) =~= rest.subrange(start, end - 1).push(items.last()));
        } else {
            assert(!range.holds(last));
            if start == items.len() {
                law_range_is_subrange(rest, range, start - 1, end - 1);
                assert(items.subrange(start, end) =~= rest.subrange(start - 1, end - 1));
            } else {
                law_range_is_subrange(rest, range, start, end);
                assert(items.subrange(start, end) =~= rest.subrange(start, end));
            }
        }
    }
}

/// The full range gives all transactions.
pub proof fn law_full_range_is_all<V>(items: Seq<V>, range: NumberRange)
    requires
        items.len() <= u64::MAX,
        forall|number: u64| #[trigger] range.holds(number),
    ensures
        items_in_range(items, range) == items,
{
    law_range_is_subrange(items, range, 0, items.len() as int);
    assert(items.subrange(0, items.len() as int) =~= items);
}

/// A range of one number gives the signer of the transaction with this number, where it can be
/// recovered, and nothing else.
pub proof fn law_one_number_gives_one_signer<T: SignedTransaction>(
    items: Seq<T::V>,
    range: NumberRange,
    id: TxNumber,
)
    requires
        items.len() <= usize::MAX,
        id <= usize::MAX,
        forall|number: u64| #[trigger] range.holds(number) <==> number == id,
    ensures
        known_signers::<T>(items_in_range(items, range)) == (match nth(items, id) {
            Some(tx) => match T::signer_of(tx) {
                Some(signer) => seq![signer],
                None => Seq::empty(),
            },
            None => Seq::empty(),
        }),
{
    if id < items.len() {
        law_range_is_subrange(items, range, id as int, id + 1);
        let one = items.subrange(id as int, id + 1);
        assert(one.drop_last() =~= Seq::<T::V>::empty());
        assert(known_signers::<T>(one.drop_last()) =~= Seq::<Address>::empty());
        assert(one.last() == items[id as int]);
        assert(known_signers::<T>(one) =~= (match T::signer_of(items[id as int]) {
            Some(signer) => seq![signer],
            None => Seq::empty(),
        }));
    } else {
        law_range_is_subrange(items, range, 0, 0);
        assert(items.subrange(0, 0) =~= Seq::<T::V>::empty());
    }
}

/// Where every signer can be recovered, there is one signer for each transaction, in order.
pub proof fn law_every_signer_known<T: SignedTransaction>(items: Seq<T::V>)
    requires
        forall|i: int| 0 <= i < items.len() ==> T::signer_of(#[trigger] items[i]) is Some,
    ensures
        known_signers::<T>(items).len() == items.len(),
        forall|i: int|
            0 <= i < items.len() ==> Some(#[trigger] known_signers::<T>(items)[i]) == T::signer_of(
                items[i],
            ),
    decreases items.len(),
{
    if items.len() > 0 {
        let rest = items.drop_last();
        assert forall|i: int| 0 <= i < rest.len() implies T::signer_of(
            #[trigger] rest[i],
        ) is Some by {
            assert(T::signer_of(items[i]) is Some);
        }
        law_every_signer_known::<T>(rest);
        assert(T::signer_of(items[items.len() - 1]) is Some);
        assert forall|i: int| 0 <= i < items.len() implies Some(
            #[trigger] known_signers::<T>(items)[i],
        ) == T::signer_of(items[i]) by {
            if i < rest.len() {
                assert(known_signers::<T>(items)[i] == known_signers::<T>(rest)[i]);
                assert(rest[i] == items[i]);
            }
        }
    }
}

/// The sum of the difficulties below a number does not depend on the order in which the headers are
/// walked.
pub proof fn law_total_difficulty_any_walk(
    map: Map<B256, HeaderView>,
    left: Seq<(B256, HeaderView)>,
    right: Seq<(B256, HeaderView)>,
    limit: int,
)
    requires
        is_walk(left, map),
        is_walk(right, map),
    ensures
        difficulty_below(left, limit) == difficulty_below(right, limit),
        difficulty_below(left, limit) == total_below(map, limit),
{
    lemma_difficulty_any_walk(left, right, map, limit);
    lemma_total_below(left, map, limit);
}

/// Where a header is the only one with its number, its total difficulty is the total difficulty
/// up to its number.
pub proof fn law_total_difficulty_by_hash_and_number(
    map: Map<B256, HeaderView>,
    walk: Seq<(B256, HeaderView)>,
    hash: B256,
)
    requires
        is_walk(walk, map),
        map.contains_key(hash),
        forall|other: B256| #[trigger]
            map.contains_key(other) && other != hash ==> map[other].number != map[hash].number,
    ensures
        total_difficulty(map, map[hash]) == total_below(map, map[hash].number + 1)
            % u256_modulus(),
{
    lemma_total_difficulty_at_number(walk, map, hash);
}

/// As long as it does not wrap around, the total difficulty of a header exceeds that of a header
/// with a smaller number by its own difficulty at least.
pub proof fn law_total_difficulty_grows(
    map: Map<B256, HeaderView>,
    walk: Seq<(B256, HeaderView)>,
    low: B256,
    high: B256,
)
    requires
        is_walk(walk, map),
        map.contains_key(low),
        map.contains_key(high),
        map[low].number < map[high].number,
        map[high].difficulty + total_below(map, map[high].number as int) < u256_modulus(),
    ensures
        total_difficulty(map, map[low]) + map[high].difficulty <= total_difficulty(map, map[high]),
{
    let limit = map[high].number as int;
    lemma_difficulty_covers(walk, map, low, limit);
    lemma_total_below(walk, map, map[low].number as int);
    lemma_total_below(walk, map, limit);
    vstd::arithmetic::div_mod::lemma_small_mod(
        map[low].difficulty + total_below(map, map[low].number as int),
        u256_modulus(),
    );
    vstd::arithmetic::div_mod::lemma_small_mod(
        map[high].difficulty + total_below(map, limit),
        u256_modulus(),
    );
}

/// There is one greatest number at most, and a header with this number is found.
pub proof fn law_best_number(
    map: Map<B256, HeaderView>,
    best: BlockNumber,
    other: BlockNumber,
    found: Option<HeaderView>,
)
    requires
        is_best_number(map, best),
    ensures
        is_best_number(map, other) ==> other == best,
        is_numbered_header(map, best, found) ==> found is Some,
        other > best && is_numbered_header(map, other, found) ==> found is None,
{
    let hash = choose|hash: B256| #[trigger] map.contains_key(hash) && map[hash].number == best;
    assert(map.contains_key(hash));
    if is_best_number(map, other) {
        let second = choose|hash: B256| #[trigger]
            map.contains_key(hash) && map[hash].number == other;
        assert(map.contains_key(second));
    }
}

/// Where a header is the only one with its number, a search by number finds it.
pub proof fn law_only_header_is_found(
    map: Map<B256, HeaderView>,
    hash: B256,
    found: Option<HeaderView>,
)
    requires
        map.contains_key(hash),
        forall|other: B256| #[trigger]
            map.contains_key(other) && other != hash ==> map[other].number != map[hash].number,
        is_numbered_header(map, map[hash].number, found),
    ensures
        found == Some(map[hash]),
{
}

/// Where a block is the only one with its number, a search by number finds it.
pub proof fn law_only_block_is_found<V>(
    map: Map<B256, BlockView<V>>,
    hash: B256,
    found: Option<BlockView<V>>,
)
    requires
        map.contains_key(hash),
        forall|other: B256| #[trigger]
            map.contains_key(other) && other != hash ==> map[other].header.number
                != map[hash].header.number,
        is_numbered_block(map, map[hash].header.number, found),
    ensures
        found == Some(map[hash]),
{
}

/// What is selected from a walk by ascending number is fixed by the walk.
pub proof fn law_selection_unique<A>(
    left: Seq<A>,
    right: Seq<A>,
    items: Seq<A>,
    keys: Seq<Option<u64>>,
)
    requires
        is_sorted_selection(left, items, keys),
        is_sorted_selection(right, items, keys),
    ensures
        left == right,
{
    let first = choose|order: Seq<usize>| #[trigger]
        is_stable_order(order, keys) && left == pick(items, order);
    let second = choose|order: Seq<usize>| #[trigger]
        is_stable_order(order, keys) && right == pick(items, order);
    lemma_stable_order_unique(first, second, keys);
}

/// The headers of a range come by ascending number, all of them in the range, and every header of
/// the walk that is in the range is among them.
pub proof fn law_headers_range_sorted(
    walk: Seq<(B256, HeaderView)>,
    range: NumberRange,
    found: Seq<HeaderView>,
)
    requires
        is_sorted_selection(found, headers_of(walk), numbers_in_range(walk, range)),
    ensures
        forall|i: int, j: int|
            0 <= i < j < found.len() ==> (#[trigger] found[i]).number <= (
            #[trigger] found[j]).number,
        forall|i: int| 0 <= i < found.len() ==> range.holds((#[trigger] found[i]).number),
        forall|i: int|
            0 <= i < walk.len() && range.holds((#[trigger] walk[i]).1.number) ==> found.contains(
                walk[i].1,
            ),
{
    let keys = numbers_in_range(walk, range);
    let items = headers_of(walk);
    let order = choose|order: Seq<usize>| #[trigger]
        is_stable_order(order, keys) && found == pick(items, order);
    assert forall|i: int| 0 <= i < found.len() implies range.holds((#[trigger] found[i]).number)
        && keys[order[i] as int] == Some(found[i].number) by {
        assert(keys[order[i] as int] is Some);
    }
    assert forall|i: int, j: int| 0 <= i < j < found.len() implies (#[trigger] found[i]).number <= (
    #[trigger] found[j]).number by {
        assert(comes_before(keys, order[i], order[j]));
    }
    assert forall|i: int| 0 <= i < walk.len() && range.holds(
        (#[trigger] walk[i]).1.number,
    ) implies found.contains(walk[i].1) by {
        assert(keys[i] is Some);
        let k = choose|k: int| 0 <= k < order.len() && (#[trigger] order[k]) == i;
        assert(found[k] == walk[i].1);
    }
}

/// The blocks of a range come by ascending number, all of them wanted, and every wanted block of
/// the walk is among them.
pub proof fn law_block_range_sorted<V>(
    walk: Seq<(B256, BlockView<V>)>,
    wanted: spec_fn(BlockNumber) -> bool,
    found: Seq<BlockView<V>>,
)
    requires
        is_sorted_selection(found, blocks_of(walk), wanted_numbers(walk, wanted)),
    ensures
        forall|i: int, j: int|
            0 <= i < j < found.len() ==> (#[trigger] found[i]).header.number <= (
            #[trigger] found[j]).header.number,
        forall|i: int| 0 <= i < found.len() ==> wanted((#[trigger] found[i]).header.number),
        forall|i: int|
            0 <= i < walk.len() && wanted((#[trigger] walk[i]).1.header.number) ==> found.contains(
                walk[i].1,
            ),
{
    let keys = wanted_numbers(walk, wanted);
    let items = blocks_of(walk);
    let order = choose|order: Seq<usize>| #[trigger]
        is_stable_order(order, keys) && found == pick(items, order);
    assert forall|i: int| 0 <= i < found.len() implies wanted((#[trigger] found[i]).header.number)
        && keys[order[i] as int] == Some(found[i].header.number) by {
        assert(keys[order[i] as int] is Some);
    }
    assert forall|i: int, j: int| 0 <= i < j < found.len() implies (
    #[trigger] found[i]).header.number <= (#[trigger] found[j]).header.number by {
        assert(comes_before(keys, order[i], order[j]));
    }
    assert forall|i: int| 0 <= i < walk.len() && wanted(
        (#[trigger] walk[i]).1.header.number,
    ) implies found.contains(walk[i].1) by {
        assert(keys[i] is Some);
        let k = choose|k: int| 0 <= k < order.len() && (#[trigger] order[k]) == i;
        assert(found[k] == walk[i].1);
    }
}

/// Whether no two entries of a map have one number, as far as the number is wanted.
pub open spec fn wanted_numbers_differ<A>(
    map: Map<B256, A>,
    number: spec_fn(A) -> u64,
    wanted: spec_fn(u64) -> bool,
) -> bool {
    forall|a: B256, b: B256|
        #![trigger map.contains_key(a), map.contains_key(b)]
        map.contains_key(a) && map.contains_key(b) && a != b && wanted(number(map[a])) ==> number(
            map[a],
        ) != number(map[b])
}

/// The number of each entry whose number is wanted, `None` for the others.
spec fn wanted_keys<A>(
    walk: Seq<(B256, A)>,
    number: spec_fn(A) -> u64,
    wanted: spec_fn(u64) -> bool,
) -> Seq<Option<u64>> {
    Seq::new(
        walk.len(),
        |i: int|
            if wanted(number(walk[i].1)) {
                Some(number(walk[i].1))
            } else {
                None
            },
    )
}

/// Where no two wanted entries have one number, the wanted entries by ascending number are the
/// same on every walk.
proof fn lemma_wanted_entries_any_walk<A>(
    map: Map<B256, A>,
    number: spec_fn(A) -> u64,
    wanted: spec_fn(u64) -> bool,
    left: Seq<(B256, A)>,
    right: Seq<(B256, A)>,
    left_order: Seq<usize>,
    right_order: Seq<usize>,
)
    requires
        wanted_numbers_differ(map, number, wanted),
        is_walk(left, map),
        is_walk(right, map),
        is_stable_order(left_order, wanted_keys(left, number, wanted)),
        is_stable_order(right_order, wanted_keys(right, number, wanted)),
    ensures
        pick(left, left_order) == pick(right, right_order),
{
    let rank = |entry: (B256, A)| number(entry.1) as int;
    lemma_wanted_entries_ascend(map, number, wanted, left, left_order);
    lemma_wanted_entries_ascend(map, number, wanted, right, right_order);
    lemma_wanted_entries_contained(map, number, wanted, left, right, left_order, right_order);
    lemma_wanted_entries_contained(map, number, wanted, right, left, right_order, left_order);
    lemma_ascending_unique(pick(left, left_order), pick(right, right_order), rank);
}

proof fn lemma_wanted_entries_ascend<A>(
    map: Map<B256, A>,
    number: spec_fn(A) -> u64,
    wanted: spec_fn(u64) -> bool,
    walk: Seq<(B256, A)>,
    order: Seq<usize>,
)
    requires
        wanted_numbers_differ(map, number, wanted),
        is_walk(walk, map),
        is_stable_order(order, wanted_keys(walk, number, wanted)),
    ensures
        forall|i: int, j: int|
            0 <= i < j < order.len() ==> number((#[trigger] pick(walk, order)[i]).1) < number(
                (#[trigger] pick(walk, order)[j]).1,
            ),
{
    let keys = wanted_keys(walk, number, wanted);
    let picked = pick(walk, order);
    assert forall|i: int, j: int| 0 <= i < j < order.len() implies number((#[trigger] picked[i]).1)
        < number((#[trigger] picked[j]).1) by {
        let from = order[i] as int;
        let to = order[j] as int;
        assert(keys[from] is Some && keys[to] is Some);
        assert(comes_before(keys, order[i], order[j]));
        assert(from != to);
        assert(walk[from].0 != walk[to].0);
        assert(map.contains_key(walk[from].0) && map.contains_key(walk[to].0));
    }
}

proof fn lemma_wanted_entries_contained<A>(
    map: Map<B256, A>,
    number: spec_fn(A) -> u64,
    wanted: spec_fn(u64) -> bool,
    left: Seq<(B256, A)>,
    right: Seq<(B256, A)>,
    left_order: Seq<usize>,
    right_order: Seq<usize>,
)
    requires
        is_walk(left, map),
        is_walk(right, map),
        is_stable_order(left_order, wanted_keys(left, number, wanted)),
        is_stable_order(right_order, wanted_keys(right, number, wanted)),
    ensures
        forall|i: int|
            0 <= i < left_order.len() ==> pick(right, right_order).contains(
                #[trigger] pick(left, left_order)[i],
            ),
{
    let keys = wanted_keys(right, number, wanted);
    let picked = pick(left, left_order);
    assert forall|i: int| 0 <= i < left_order.len() implies pick(right, right_order).contains(
        #[trigger] picked[i],
    ) by {
        let from = left_order[i] as int;
        assert(wanted_keys(left, number, wanted)[from] is Some);
        assert(map.contains_key(left[from].0));
        let to = choose|k: int| 0 <= k < right.len() && (#[trigger] right[k]).0 == left[from].0;
        assert(map[right[to].0] == right[to].1);
        assert(right[to] == left[from]);
        assert(keys[to] is Some);
        let k = choose|k: int| 0 <= k < right_order.len() && (#[trigger] right_order[k]) == to;
        assert(pick(right, right_order)[k] == picked[i]);
    }
}

/// Where no two headers in a range have one number, the headers of the range do not depend on the
/// order in which the headers are walked.
pub proof fn law_headers_range_any_walk(
    map: Map<B256, HeaderView>,
    left_walk: Seq<(B256, HeaderView)>,
    right_walk: Seq<(B256, HeaderView)>,
    range: NumberRange,
    left: Seq<HeaderView>,
    right: Seq<HeaderView>,
)
    requires
        is_walk(left_walk, map),
        is_walk(right_walk, map),
        wanted_numbers_differ(map, |header: HeaderView| header.number, |n: u64| range.holds(n)),
        is_sorted_selection(left, headers_of(left_walk), numbers_in_range(left_walk, range)),
        is_sorted_selection(right, headers_of(right_walk), numbers_in_range(right_walk, range)),
    ensures
        left == right,
{
    let number = |header: HeaderView| header.number;
    let wanted = |n: u64| range.holds(n);
    let left_keys = numbers_in_range(left_walk, range);
    let right_keys = numbers_in_range(right_walk, range);
    let left_order = choose|order: Seq<usize>| #[trigger]
        is_stable_order(order, left_keys) && left == pick(headers_of(left_walk), order);
    let right_order = choose|order: Seq<usize>| #[trigger]
        is_stable_order(order, right_keys) && right == pick(headers_of(right_walk), order);
    assert(left_keys =~= wanted_keys(left_walk, number, wanted));
    assert(right_keys =~= wanted_keys(right_walk, number, wanted));
    lemma_wanted_entries_any_walk(
        map,
        number,
        wanted,
        left_walk,
        right_walk,
        left_order,
        right_order,
    );
    let entries = pick(left_walk, left_order);
    assert(left =~= entries.map_values(|entry: (B256, HeaderView)| entry.1));
    assert(right =~= entries.map_values(|entry: (B256, HeaderView)| entry.1)) by {
        assert(entries == pick(right_walk, right_order));
    }
}

/// Where no two wanted blocks have one number, the hashes and the blocks of the wanted numbers do
/// not depend on the order in which the blocks are walked.
pub proof fn law_block_range_any_walk<V>(
    map: Map<B256, BlockView<V>>,
    left_walk: Seq<(B256, BlockView<V>)>,
    right_walk: Seq<(B256, BlockView<V>)>,
    wanted: spec_fn(BlockNumber) -> bool,
    left: Seq<BlockView<V>>,
    right: Seq<BlockView<V>>,
    left_hashes: Seq<B256>,
    right_hashes: Seq<B256>,
)
    requires
        is_walk(left_walk, map),
        is_walk(right_walk, map),
        wanted_numbers_differ(map, |block: BlockView<V>| block.header.number, wanted),
        is_sorted_selection(left, blocks_of(left_walk), wanted_numbers(left_walk, wanted)),
        is_sorted_selection(right, blocks_of(right_walk), wanted_numbers(right_walk, wanted)),
        is_sorted_selection(left_hashes, hashes_of(left_walk), wanted_numbers(left_walk, wanted)),
        is_sorted_selection(
            right_hashes,
            hashes_of(right_walk),
            wanted_numbers(right_walk, wanted),
        ),
    ensures
        left == right,
        left_hashes == right_hashes,
{
    let number = |block: BlockView<V>| block.header.number;
    let left_keys = wanted_numbers(left_walk, wanted);
    let right_keys = wanted_numbers(right_walk, wanted);
    let left_order = choose|order: Seq<usize>| #[trigger]
        is_stable_order(order, left_keys) && left == pick(blocks_of(left_walk), order);
    let right_order = choose|order: Seq<usize>| #[trigger]
        is_stable_order(order, right_keys) && right == pick(blocks_of(right_walk), order);
    assert(left_keys =~= wanted_keys(left_walk, number, wanted));
    assert(right_keys =~= wanted_keys(right_walk, number, wanted));
    lemma_wanted_entries_any_walk(
        map,
        number,
        wanted,
        left_walk,
        right_walk,
        left_order,
        right_order,
    );
    let entries = pick(left_walk, left_order);
    assert(entries == pick(right_walk, right_order));
    assert(left =~= entries.map_values(|entry: (B256, BlockView<V>)| entry.1));
    assert(right =~= entries.map_values(|entry: (B256, BlockView<V>)| entry.1));
    let picked_left = pick(hashes_of(left_walk), left_order);
    let picked_right = pick(hashes_of(right_walk), right_order);
    assert(picked_left =~= entries.map_values(|entry: (B256, BlockView<V>)| entry.0));
    assert(picked_right =~= entries.map_values(|entry: (B256, BlockView<V>)| entry.0));
    assert(is_sorted_selection(picked_left, hashes_of(left_walk), left_keys));
    assert(is_sorted_selection(picked_right, hashes_of(right_walk), right_keys));
    law_selection_unique(left_hashes, picked_left, hashes_of(left_walk), left_keys);
    law_selection_unique(right_hashes, picked_right, hashes_of(right_walk), right_keys);
}

/// On one walk, the hashes and the blocks of the same numbers go together: each hash is the one
/// under which the block at its position is stored.
pub proof fn law_hashes_match_blocks<V>(
    map: Map<B256, BlockView<V>>,
    walk: Seq<(B256, BlockView<V>)>,
    wanted: spec_fn(BlockNumber) -> bool,
    hashes: Seq<B256>,
    blocks: Seq<BlockView<V>>,
)
    requires
        is_walk(walk, map),
        is_sorted_selection(hashes, hashes_of(walk), wanted_numbers(walk, wanted)),
        is_sorted_selection(blocks, blocks_of(walk), wanted_numbers(walk, wanted)),
    ensures
        hashes.len() == blocks.len(),
        forall|k: int|
            0 <= k < hashes.len() ==> map.get(#[trigger] hashes[k]) == Some(blocks[k]),
{
    let keys = wanted_numbers(walk, wanted);
    let first = choose|order: Seq<usize>| #[trigger]
        is_stable_order(order, keys) && hashes == pick(hashes_of(walk), order);
    let second = choose|order: Seq<usize>| #[trigger]
        is_stable_order(order, keys) && blocks == pick(blocks_of(walk), order);
    lemma_stable_order_unique(first, second, keys);
    assert forall|k: int| 0 <= k < hashes.len() implies map.get(#[trigger] hashes[k]) == Some(
        blocks[k],
    ) by {
        let i = first[k] as int;
        assert(map.contains_key(walk[i].0));
    }
}

/// On one walk, the hashes of two adjoining ranges of numbers, one after the other, are the hashes
/// of the range that they make up.
pub proof fn law_adjoining_hashes_concatenate<V>(
    walk: Seq<(B256, BlockView<V>)>,
    start: BlockNumber,
    middle: BlockNumber,
    end: BlockNumber,
    low: Seq<B256>,
    high: Seq<B256>,
    all: Seq<B256>,
)
    requires
        start <= middle <= end,
        is_sorted_selection(low, hashes_of(walk), wanted_numbers(walk, from_to(start, middle))),
        is_sorted_selection(high, hashes_of(walk), wanted_numbers(walk, from_to(middle, end))),
        is_sorted_selection(all, hashes_of(walk), wanted_numbers(walk, from_to(start, end))),
    ensures
        all == low + high,
{
    let items = hashes_of(walk);
    let low_keys = wanted_numbers(walk, from_to(start, middle));
    let high_keys = wanted_numbers(walk, from_to(middle, end));
    let keys = wanted_numbers(walk, from_to(start, end));
    let first = choose|order: Seq<usize>| #[trigger]
        is_stable_order(order, low_keys) && low == pick(items, order);
    let second = choose|order: Seq<usize>| #[trigger]
        is_stable_order(order, high_keys) && high == pick(items, order);
    let both = first + second;
    assert forall|k: int| 0 <= k < both.len() implies (#[trigger] both[k]) < keys.len()
        && keys[both[k] as int] is Some && (keys[both[k] as int]->0 < middle <==> k
        < first.len()) by {
        if k < first.len() {
            assert(low_keys[first[k] as int] is Some);
        } else {
            assert(high_keys[second[k - first.len()] as int] is Some);
        }
    }
    assert forall|i: int| 0 <= i < keys.len() && (#[trigger] keys[i]) is Some implies exists|k: int|
        0 <= k < both.len() && (#[trigger] both[k]) == i by {
        if walk[i].1.header.number < middle {
            assert(low_keys[i] is Some);
            let k = choose|k: int| 0 <= k < first.len() && (#[trigger] first[k]) == i;
            assert(both[k] == i);
        } else {
            assert(high_keys[i] is Some);
            let k = choose|k: int| 0 <= k < second.len() && (#[trigger] second[k]) == i;
            assert(both[first.len() + k] == i);
        }
    }
    assert forall|k: int, l: int| 0 <= k < l < both.len() implies comes_before(
        keys,
        #[trigger] both[k],
        #[trigger] both[l],
    ) by {
        if l < first.len() {
            assert(comes_before(low_keys, first[k], first[l]));
            assert(low_keys[first[k] as int] is Some && low_keys[first[l] as int] is Some);
        } else if k >= first.len() {
            let (i, j) = (k - first.len(), l - first.len());
            assert(comes_before(high_keys, second[i], second[j]));
            assert(high_keys[second[i] as int] is Some && high_keys[second[j] as int] is Some);
        }
    }
    assert(is_stable_order(both, keys));
    assert(low + high =~= pick(items, both));
    law_selection_unique(all, low + high, items, keys);
}

/// On one walk without two blocks of one number in a range, the transactions of the range of blocks
/// are those of the blocks of the range.
pub proof fn law_bodies_match_blocks<V>(
    walk: Seq<(B256, BlockView<V>)>,
    range: NumberRange,
    bodies: Seq<Seq<V>>,
    blocks: Seq<BlockView<V>>,
)
    requires
        forall|i: int, j: int|
            0 <= i < j < walk.len() && range.holds((#[trigger] walk[i]).1.header.number)
                ==> walk[i].1.header.number != (#[trigger] walk[j]).1.header.number,
        is_sorted_selection(bodies, bodies_of(walk), last_numbers_in_range(walk, range)),
        is_sorted_selection(
            blocks,
            blocks_of(walk),
            wanted_numbers(walk, |number: BlockNumber| range.holds(number)),
        ),
    ensures
        bodies == blocks.map_values(|block: BlockView<V>| block.transactions),
{
    let keys = wanted_numbers(walk, |number: BlockNumber| range.holds(number));
    assert(last_numbers_in_range(walk, range) =~= keys);
    let first = choose|order: Seq<usize>| #[trigger]
        is_stable_order(order, keys) && bodies == pick(bodies_of(walk), order);
    let second = choose|order: Seq<usize>| #[trigger]
        is_stable_order(order, keys) && blocks == pick(blocks_of(walk), order);
    lemma_stable_order_unique(first, second, keys);
    let expected = blocks.map_values(|block: BlockView<V>| block.transactions);
    assert forall|k: int| 0 <= k < bodies.len() implies bodies[k] == expected[k] by {
        assert(first[k] < walk.len());
    }
    assert(bodies =~= expected);
}

/// On one walk, a lookup by an identifier is the lookup by the hash or number that the identifier
/// holds: by its hash whether or not the block must be canonical, and by its number even where
/// several blocks share the number. The latest block is looked up by the greatest number of a
/// header, the earliest by zero, and the others are not found.
pub proof fn law_identifier_agrees_with_hash_or_number<V>(
    walk: Seq<(B256, BlockView<V>)>,
    latest: ProviderResult<BlockNumber>,
    hash: RpcBlockHash,
    number: BlockNumber,
)
    ensures
        block_by_id_on(walk, latest, BlockId::Hash(hash)) == Ok::<_, ProviderError>(
            block_on(walk, BlockHashOrNumber::Hash(hash.block_hash)),
        ),
        block_by_id_on(walk, latest, BlockId::Number(BlockNumberOrTag::Number(number))) == Ok::<
            _,
            ProviderError,
        >(block_on(walk, BlockHashOrNumber::Number(number))),
        block_by_id_on(walk, latest, BlockId::Number(BlockNumberOrTag::Latest)) == (match latest {
            Ok(best) => Ok(block_on(walk, BlockHashOrNumber::Number(best))),
            Err(error) => Err(error),
        }),
        block_by_id_on(walk, latest, BlockId::Number(BlockNumberOrTag::Earliest)) == Ok::<
            _,
            ProviderError,
        >(block_on(walk, BlockHashOrNumber::Number(0))),
        forall|tag: BlockNumberOrTag|
            tag == BlockNumberOrTag::Pending || tag == BlockNumberOrTag::Finalized || tag
                == BlockNumberOrTag::Safe ==> #[trigger] block_by_id_on(
                walk,
                latest,
                BlockId::Number(tag),
            ) == Ok::<Option<BlockView<V>>, ProviderError>(None),
{
}

/// On one walk, the hash and the block that are found by a number go together: the block is stored
/// under the hash.
pub proof fn law_number_finds_hash_and_block<V>(
    map: Map<B256, BlockView<V>>,
    walk: Seq<(B256, BlockView<V>)>,
    number: BlockNumber,
)
    requires
        is_walk(walk, map),
    ensures
        match first_match(walk, has_number(number)) {
            Some(entry) => {
                &&& block_on(walk, BlockHashOrNumber::Number(number)) == Some(entry.1)
                &&& map.get(entry.0) == Some(entry.1)
            },
            None => block_on(walk, BlockHashOrNumber::Number(number)) is None,
        },
{
    lemma_first_numbered(walk, map, number);
}

/// A lookup by hash finds, on any walk, the block that is stored under the hash.
pub proof fn law_hash_lookup_is_the_stored_block<V>(
    map: Map<B256, BlockView<V>>,
    walk: Seq<(B256, BlockView<V>)>,
    hash: B256,
)
    requires
        is_walk(walk, map),
    ensures
        block_on(walk, BlockHashOrNumber::Hash(hash)) == map.get(hash),
{
    lemma_first_keyed(walk, map, hash);
}

/// State roots are handed out last in, first out: the root that was added last comes next, and
/// leaves the roots that were there before.
pub proof fn law_state_roots_are_a_stack(roots: Seq<B256>, added: B256, next: B256)
    ensures
        is_next_root(roots.push(added), next) <==> next == added,
        remaining_roots(roots.push(added)) == roots,
{
    assert(roots.push(added).drop_last() =~= roots);
}

/// Without state roots, the zero hash is handed out, and none are left.
pub proof fn law_no_state_root_is_zero(next: B256)
    ensures
        is_next_root(Seq::empty(), next) <==> is_zero_hash(next),
        remaining_roots(Seq::empty()) == Seq::<B256>::empty(),
{
}

/// A state is no snapshot: the state at any block but the finalized and the safe one is the
/// provider as it is when the state is asked for, whatever was added before, and whether or not the
/// block is stored. So it has the accounts, the code and the storage that the provider has.
pub proof fn law_state_is_the_provider<T, C>(
    provider: MockEthProvider<T, C>,
    number_or_tag: BlockNumberOrTag,
)
    requires
        number_or_tag != BlockNumberOrTag::Finalized,
        number_or_tag != BlockNumberOrTag::Safe,
    ensures
        state_at(&provider, number_or_tag) == Ok::<_, ProviderError>(&provider),
{
}

/// The code of an account that was added is found by its hash.
pub proof fn law_added_code_is_found(
    map: Map<Address, ExtendedAccountView>,
    address: Address,
    account: ExtendedAccountView,
    code_hash: B256,
    found: Option<crate::account::BytecodeView>,
)
    requires
        account.account.bytecode_hash == Some(code_hash),
        account.bytecode is Some,
        is_code_with_hash(map.insert(address, account), code_hash, found),
    ensures
        found is Some,
{
    assert(map.insert(address, account).contains_key(address));
    assert(code_of(account, code_hash) is Some);
}

} // verus!
