//! Laws on the queries: what a search, a range or a total must give, said of the stored entries.

use crate::block::{BlockHashOrNumber, BlockId, BlockNumberOrTag, BlockView};
use crate::block_reader::{
    header_part, is_first_identified, is_first_named, is_identified_block, is_latest_number,
    is_named_block, is_tag_number,
};
use crate::blocks::{
    block_by_id_on, block_on, blocks_of, bodies_of, has_key, hashes_of, is_last_of_number,
    is_numbered_block, last_numbers_in_range, tag_number, wanted_numbers,
};
use crate::error::{ProviderError, ProviderResult};
use crate::header::{header_hash, HeaderView, SealedHeader};
use crate::header_provider::{is_headers_range, total_difficulty};
use crate::headers::{
    asked_while, difficulty_below, headers_of, is_best, is_best_number, is_numbered_header,
    is_sealed_while, lemma_total_below, numbers_in_range, total_below,
};
use crate::primitives::{Address, B256, BlockNumber, TxHash, TxNumber};
use crate::range::NumberRange;
use crate::search::{
    comes_before, first_match, first_position, is_sorted_selection, is_stable_order,
    lemma_first_position, pick,
};
use crate::store::{entries_view, insert_all, is_walk, map_view, walk_values, walk_view};
use crate::transaction::SignedTransaction;
use crate::transactions::{
    first_number, has_hash, has_match, holds_number, is_stored, items_in_range, known_signers,
    location, meta_of, nth, tx_list,
};
use vstd::prelude::*;

verus! {

/// A walk lists just the entries of its map, and no key twice.
pub proof fn law_walk_lists_the_entries<K, A>(walk: Seq<(K, A)>, map: Map<K, A>)
    requires
        is_walk(walk, map),
    ensures
        forall|key: K, value: A| #[trigger]
            walk.contains((key, value)) <==> map.contains_key(key) && map[key] == value,
        forall|i: int, j: int|
            0 <= i < walk.len() && 0 <= j < walk.len() && (#[trigger] walk[i]).0 == (
            #[trigger] walk[j]).0 ==> i == j,
{
    assert forall|key: K, value: A| #[trigger]
        walk.contains((key, value)) <==> map.contains_key(key) && map[key] == value by {
        if walk.contains((key, value)) {
            let i = choose|i: int| 0 <= i < walk.len() && walk[i] == (key, value);
            assert(map.contains_key(walk[i].0));
        }
        if map.contains_key(key) && map[key] == value {
            let i = choose|i: int| 0 <= i < walk.len() && (#[trigger] walk[i]).0 == key;
            assert(walk[i] == (key, value));
        }
    }
}

/// What lists just the entries of a map, and no key twice, is a walk of the map.
pub proof fn law_listing_is_a_walk<K, A>(walk: Seq<(K, A)>, map: Map<K, A>)
    requires
        forall|key: K, value: A| #[trigger]
            walk.contains((key, value)) <==> map.contains_key(key) && map[key] == value,
        forall|i: int, j: int|
            0 <= i < walk.len() && 0 <= j < walk.len() && (#[trigger] walk[i]).0 == (
            #[trigger] walk[j]).0 ==> i == j,
    ensures
        is_walk(walk, map),
{
    assert forall|i: int| 0 <= i < walk.len() implies map.contains_key((#[trigger] walk[i]).0)
        && map[walk[i].0] == walk[i].1 by {
        assert(walk.contains((walk[i].0, walk[i].1)));
    }
    assert forall|k: K| #[trigger] map.contains_key(k) implies exists|i: int|
        0 <= i < walk.len() && (#[trigger] walk[i]).0 == k by {
        assert(walk.contains((k, map[k])));
        let i = choose|i: int| 0 <= i < walk.len() && walk[i] == (k, map[k]);
        assert(walk[i].0 == k);
    }
}

/// Looking at maps, walks and entries through views keeps keys and order.
pub proof fn law_views_keep_keys_and_order<K, V: View>(
    map: Map<K, V>,
    entries: Seq<(K, V)>,
    key: K,
)
    ensures
        map_view(map).contains_key(key) <==> map.contains_key(key),
        map.contains_key(key) ==> map_view(map)[key] == map[key]@,
        entries_view(entries).len() == entries.len(),
        forall|i: int|
            0 <= i < entries.len() ==> #[trigger] entries_view(entries)[i] == (
                entries[i].0,
                entries[i].1@,
            ),
{
}

/// The view of a walk has each entry in its place, with the view of its value.
pub proof fn law_view_of_a_walk<const N: usize, V: View>(walk: Seq<([u8; N], &V)>)
    ensures
        walk_view(walk).len() == walk.len(),
        forall|i: int|
            0 <= i < walk.len() ==> #[trigger] walk_view(walk)[i] == (walk[i].0, walk[i].1@),
        walk_values(walk).len() == walk.len(),
        forall|i: int|
            0 <= i < walk.len() ==> #[trigger] walk_values(walk)[i] == (walk[i].0, *walk[i].1),
{
}

/// Inserting nothing changes nothing, and one more entry is inserted after the others.
pub proof fn law_entries_are_inserted_in_turn<K, A>(
    map: Map<K, A>,
    entries: Seq<(K, A)>,
    key: K,
    value: A,
)
    ensures
        insert_all(map, Seq::empty()) == map,
        insert_all(map, entries.push((key, value))) == insert_all(map, entries).insert(key, value),
{
    assert(entries.push((key, value)).drop_last() =~= entries);
}

/// A search finds the first item that satisfies the predicate, and nothing just where no item does.
pub proof fn law_search_finds_the_first<A>(items: Seq<A>, p: spec_fn(A) -> bool)
    ensures
        match first_position(items, p) {
            Some(i) => {
                &&& 0 <= i < items.len()
                &&& p(items[i])
                &&& forall|j: int| 0 <= j < i ==> !p(#[trigger] items[j])
                &&& first_match(items, p) == Some(items[i])
            },
            None => {
                &&& forall|j: int| 0 <= j < items.len() ==> !p(#[trigger] items[j])
                &&& first_match(items, p) is None
            },
        },
{
    lemma_first_position(items, p);
}

/// The searches by number, hash and key look at just the number, the hash and the key.
pub proof fn law_search_keys<T: SignedTransaction>(
    header: (B256, HeaderView),
    block: (B256, BlockView<T::V>),
    tx: T::V,
    number: BlockNumber,
    hash: B256,
)
    ensures
        crate::headers::has_number(number)(header) <==> header.1.number == number,
        crate::blocks::has_number(number)(block) <==> block.1.header.number == number,
        has_key(hash)(block) <==> block.0 == hash,
        has_hash::<T>(hash)(tx) <==> T::hash_of(tx) == hash,
{
}

/// A selection by ascending key takes each item that has a key from its place, once: by ascending
/// key, and items of one key in the order of their places.
pub proof fn law_selection_is_sorted_and_stable<A>(
    picked: Seq<A>,
    items: Seq<A>,
    keys: Seq<Option<u64>>,
) -> (places: Seq<int>)
    requires
        is_sorted_selection(picked, items, keys),
    ensures
        places.len() == picked.len(),
        forall|k: int|
            0 <= k < picked.len() ==> 0 <= (#[trigger] places[k]) < keys.len()
                && keys[places[k]] is Some && picked[k] == items[places[k]],
        forall|i: int|
            0 <= i < keys.len() && (#[trigger] keys[i]) is Some ==> places.contains(i),
        forall|k: int, l: int|
            0 <= k < l < picked.len() ==> {
                ||| keys[#[trigger] places[k]]->0 < keys[#[trigger] places[l]]->0
                ||| keys[places[k]]->0 == keys[places[l]]->0 && places[k] < places[l]
            },
{
    let order = choose|order: Seq<usize>| #[trigger]
        is_stable_order(order, keys) && picked == pick(items, order);
    let places = order.map_values(|place: usize| place as int);
    assert forall|i: int| 0 <= i < keys.len() && (#[trigger] keys[i]) is Some implies places.contains(
        i,
    ) by {
        let k = choose|k: int| 0 <= k < order.len() && (#[trigger] order[k]) == i;
        assert(places[k] == i);
    }
    assert forall|k: int, l: int| 0 <= k < l < picked.len() implies {
        ||| keys[#[trigger] places[k]]->0 < keys[#[trigger] places[l]]->0
        ||| keys[places[k]]->0 == keys[places[l]]->0 && places[k] < places[l]
    } by {
        assert(comes_before(keys, order[k], order[l]));
    }
    assert forall|k: int| 0 <= k < picked.len() implies 0 <= (#[trigger] places[k]) < keys.len()
        && keys[places[k]] is Some && picked[k] == items[places[k]] by {
        assert(order[k] < keys.len());
    }
    places
}

/// The headers of a range are whole headers of the walk, each taken once from its place: those with
/// a number in the range, by ascending number, and those of one number in the order of the walk.
pub proof fn law_headers_range_takes_from_the_walk(
    walk: Seq<(B256, HeaderView)>,
    range: NumberRange,
    found: Seq<HeaderView>,
) -> (places: Seq<int>)
    requires
        is_sorted_selection(found, headers_of(walk), numbers_in_range(walk, range)),
    ensures
        places.len() == found.len(),
        forall|k: int|
            0 <= k < found.len() ==> 0 <= (#[trigger] places[k]) < walk.len() && found[k]
                == walk[places[k]].1 && range.holds(found[k].number),
        forall|i: int|
            0 <= i < walk.len() && range.holds((#[trigger] walk[i]).1.number) ==> places.contains(
                i,
            ),
        forall|k: int, l: int|
            0 <= k < l < found.len() ==> {
                ||| found[k].number < found[l].number
                ||| found[k].number == found[l].number && (#[trigger] places[k]) < (
                #[trigger] places[l])
            },
{
    let keys = numbers_in_range(walk, range);
    let places = law_selection_is_sorted_and_stable(found, headers_of(walk), keys);
    assert forall|i: int| 0 <= i < walk.len() && range.holds(
        (#[trigger] walk[i]).1.number,
    ) implies places.contains(i) by {
        assert(keys[i] is Some);
    }
    assert forall|k: int| 0 <= k < found.len() implies 0 <= (#[trigger] places[k]) < walk.len()
        && found[k] == walk[places[k]].1 && range.holds(found[k].number) && keys[places[k]] == Some(
        found[k].number,
    ) by {
        assert(keys[places[k]] is Some);
    }
    assert forall|k: int, l: int| 0 <= k < l < found.len() implies {
        ||| found[k].number < found[l].number
        ||| found[k].number == found[l].number && (#[trigger] places[k]) < (#[trigger] places[l])
    } by {
        assert(keys[places[k]] == Some(found[k].number));
        assert(keys[places[l]] == Some(found[l].number));
    }
    places
}

/// The headers that the provider gives for a range are stored ones: each stored header with a
/// number in the range comes once, whole, and by ascending number.
pub proof fn law_headers_range_is_stored(
    map: Map<B256, HeaderView>,
    range: NumberRange,
    found: Seq<HeaderView>,
) -> (hashes: Seq<B256>)
    requires
        is_headers_range(map, range, found),
    ensures
        hashes.len() == found.len(),
        hashes.no_duplicates(),
        forall|k: int|
            0 <= k < found.len() ==> map.contains_key(#[trigger] hashes[k]) && found[k]
                == map[hashes[k]] && range.holds(found[k].number),
        forall|hash: B256| #[trigger]
            map.contains_key(hash) && range.holds(map[hash].number) ==> hashes.contains(hash),
        forall|k: int, l: int|
            0 <= k < l < found.len() ==> (#[trigger] found[k]).number <= (
            #[trigger] found[l]).number,
{
    let walk = choose|walk: Seq<(B256, HeaderView)>| #[trigger]
        is_walk(walk, map) && is_sorted_selection(
            found,
            headers_of(walk),
            numbers_in_range(walk, range),
        );
    let places = law_headers_range_takes_from_the_walk(walk, range, found);
    let hashes = places.map_values(|place: int| walk[place].0);
    assert forall|k: int| 0 <= k < found.len() implies map.contains_key(#[trigger] hashes[k])
        && found[k] == map[hashes[k]] && range.holds(found[k].number) by {
        assert(map.contains_key(walk[places[k]].0));
    }
    assert forall|hash: B256| #[trigger] map.contains_key(hash) && range.holds(
        map[hash].number,
    ) implies hashes.contains(hash) by {
        let i = choose|i: int| 0 <= i < walk.len() && (#[trigger] walk[i]).0 == hash;
        assert(map[walk[i].0] == walk[i].1);
        assert(places.contains(i));
        let k = choose|k: int| 0 <= k < places.len() && places[k] == i;
        assert(hashes[k] == hash);
    }
    assert forall|k: int, l: int| 0 <= k < l < found.len() implies (#[trigger] found[k]).number <= (
    #[trigger] found[l]).number by {
        let (i, j) = (places[k], places[l]);
    }
    assert forall|k: int, l: int| 0 <= k < l < hashes.len() implies hashes[k] != hashes[l] by {
        let (i, j) = (places[k], places[l]);
        if i < j {
            assert(walk[i].0 != walk[j].0);
        } else if j < i {
            assert(walk[j].0 != walk[i].0);
        } else {
            assert(found[k].number == found[l].number);
        }
    }
    hashes
}

/// The blocks and the hashes of wanted numbers are those of the walk, each taken once from its
/// place: by ascending number, and those of one number in the order of the walk.
pub proof fn law_wanted_blocks_are_taken_from_the_walk<V>(
    walk: Seq<(B256, BlockView<V>)>,
    wanted: spec_fn(BlockNumber) -> bool,
    blocks: Seq<BlockView<V>>,
    hashes: Seq<B256>,
) -> (places: Seq<int>)
    requires
        is_sorted_selection(blocks, blocks_of(walk), wanted_numbers(walk, wanted)),
        is_sorted_selection(hashes, hashes_of(walk), wanted_numbers(walk, wanted)),
    ensures
        places.len() == blocks.len(),
        places.len() == hashes.len(),
        forall|k: int|
            0 <= k < places.len() ==> 0 <= (#[trigger] places[k]) < walk.len() && blocks[k]
                == walk[places[k]].1 && hashes[k] == walk[places[k]].0 && wanted(
                walk[places[k]].1.header.number,
            ),
        forall|i: int|
            0 <= i < walk.len() && wanted((#[trigger] walk[i]).1.header.number)
                ==> places.contains(i),
        forall|k: int, l: int|
            0 <= k < l < places.len() ==> {
                ||| walk[#[trigger] places[k]].1.header.number
                    < walk[#[trigger] places[l]].1.header.number
                ||| walk[places[k]].1.header.number == walk[places[l]].1.header.number && places[k]
                    < places[l]
            },
{
    let keys = wanted_numbers(walk, wanted);
    let first = choose|order: Seq<usize>| #[trigger]
        is_stable_order(order, keys) && blocks == pick(blocks_of(walk), order);
    let second = choose|order: Seq<usize>| #[trigger]
        is_stable_order(order, keys) && hashes == pick(hashes_of(walk), order);
    crate::search::lemma_stable_order_unique(first, second, keys);
    let places = first.map_values(|place: usize| place as int);
    assert forall|k: int| 0 <= k < places.len() implies 0 <= (#[trigger] places[k]) < walk.len()
        && blocks[k] == walk[places[k]].1 && hashes[k] == walk[places[k]].0 && wanted(
        walk[places[k]].1.header.number,
    ) && keys[places[k]] == Some(walk[places[k]].1.header.number) by {
        assert(keys[first[k] as int] is Some);
    }
    assert forall|i: int| 0 <= i < walk.len() && wanted(
        (#[trigger] walk[i]).1.header.number,
    ) implies places.contains(i) by {
        assert(keys[i] is Some);
        let k = choose|k: int| 0 <= k < first.len() && (#[trigger] first[k]) == i;
        assert(places[k] == i);
    }
    assert forall|k: int, l: int| 0 <= k < l < places.len() implies {
        ||| walk[#[trigger] places[k]].1.header.number < walk[#[trigger] places[l]].1.header.number
        ||| walk[places[k]].1.header.number == walk[places[l]].1.header.number && places[k]
            < places[l]
    } by {
        assert(comes_before(keys, first[k], first[l]));
    }
    places
}

/// The lists of transactions of a range are those of blocks of the walk, one list for each number
/// in the range that occurs: by strictly ascending number, and of several blocks of one number from
/// the last.
pub proof fn law_bodies_are_taken_from_the_walk<V>(
    walk: Seq<(B256, BlockView<V>)>,
    range: NumberRange,
    bodies: Seq<Seq<V>>,
) -> (places: Seq<int>)
    requires
        is_sorted_selection(bodies, bodies_of(walk), last_numbers_in_range(walk, range)),
    ensures
        places.len() == bodies.len(),
        forall|k: int|
            0 <= k < bodies.len() ==> 0 <= (#[trigger] places[k]) < walk.len() && bodies[k]
                == walk[places[k]].1.transactions && range.holds(
                walk[places[k]].1.header.number,
            ),
        forall|k: int, j: int|
            0 <= k < bodies.len() && (#[trigger] places[k]) < j < walk.len() ==> (
            #[trigger] walk[j]).1.header.number != walk[places[k]].1.header.number,
        forall|i: int|
            0 <= i < walk.len() && range.holds((#[trigger] walk[i]).1.header.number)
                ==> exists|k: int|
                0 <= k < bodies.len() && walk[#[trigger] places[k]].1.header.number
                    == walk[i].1.header.number,
        forall|k: int, l: int|
            0 <= k < l < bodies.len() ==> walk[#[trigger] places[k]].1.header.number
                < walk[#[trigger] places[l]].1.header.number,
{
    let keys = last_numbers_in_range(walk, range);
    let places = law_selection_is_sorted_and_stable(bodies, bodies_of(walk), keys);
    assert forall|k: int| 0 <= k < bodies.len() implies 0 <= (#[trigger] places[k]) < walk.len()
        && bodies[k] == walk[places[k]].1.transactions && range.holds(
        walk[places[k]].1.header.number,
    ) && is_last_of_number(walk, places[k]) && keys[places[k]] == Some(
        walk[places[k]].1.header.number,
    ) by {
        assert(keys[places[k]] is Some);
    }
    assert forall|k: int, j: int|
        0 <= k < bodies.len() && (#[trigger] places[k]) < j < walk.len() implies (
    #[trigger] walk[j]).1.header.number != walk[places[k]].1.header.number by {
        assert(is_last_of_number(walk, places[k]));
    }
    assert forall|i: int| 0 <= i < walk.len() && range.holds(
        (#[trigger] walk[i]).1.header.number,
    ) implies exists|k: int|
        0 <= k < bodies.len() && walk[#[trigger] places[k]].1.header.number
            == walk[i].1.header.number by {
        let last = lemma_last_place(walk, i);
        assert(keys[last] is Some);
        assert(places.contains(last));
        let k = choose|k: int| 0 <= k < places.len() && places[k] == last;
        assert(walk[places[k]].1.header.number == walk[i].1.header.number);
    }
    assert forall|k: int, l: int| 0 <= k < l < bodies.len() implies walk[#[trigger]
        places[k]].1.header.number < walk[#[trigger] places[l]].1.header.number by {
        assert(is_last_of_number(walk, places[k]));
        if places[k] < places[l] {
            assert(walk[places[l]].1.header.number != walk[places[k]].1.header.number);
        }
    }
    places
}

/// The last place of a number in a walk.
proof fn lemma_last_place<V>(walk: Seq<(B256, BlockView<V>)>, i: int) -> (last: int)
    requires
        0 <= i < walk.len(),
    ensures
        i <= last < walk.len(),
        walk[last].1.header.number == walk[i].1.header.number,
        is_last_of_number(walk, last),
    decreases walk.len() - i,
{
    if is_last_of_number(walk, i) {
        i
    } else {
        let j = choose|j: int|
            i < j < walk.len() && (#[trigger] walk[j]).1.header.number == walk[i].1.header.number;
        lemma_last_place(walk, j)
    }
}

/// The difficulties are summed up header by header, and a header counts where its number is below
/// the limit.
pub proof fn law_difficulty_is_summed_up(
    walk: Seq<(B256, HeaderView)>,
    hash: B256,
    header: HeaderView,
    limit: int,
)
    ensures
        difficulty_below(Seq::empty(), limit) == 0,
        header.number < limit ==> difficulty_below(walk.push((hash, header)), limit)
            == difficulty_below(walk, limit) + header.difficulty,
        header.number >= limit ==> difficulty_below(walk.push((hash, header)), limit)
            == difficulty_below(walk, limit),
{
    assert(walk.push((hash, header)).drop_last() =~= walk);
}

/// A header that is stored under a new hash raises the totals above its number by its difficulty,
/// and no others.
pub proof fn law_stored_header_raises_totals(
    map: Map<B256, HeaderView>,
    walk: Seq<(B256, HeaderView)>,
    hash: B256,
    header: HeaderView,
    limit: int,
)
    requires
        is_walk(walk, map),
        !map.contains_key(hash),
    ensures
        total_below(map.insert(hash, header), limit) == total_below(map, limit) + (if header.number
            < limit {
            header.difficulty
        } else {
            0
        }),
        total_below(Map::empty(), limit) == 0,
{
    let more = walk.push((hash, header));
    let larger = map.insert(hash, header);
    assert forall|i: int| 0 <= i < more.len() implies larger.contains_key((#[trigger] more[i]).0)
        && larger[more[i].0] == more[i].1 by {
        if i < walk.len() {
            assert(map.contains_key(walk[i].0));
        }
    }
    assert forall|k: B256| #[trigger] larger.contains_key(k) implies exists|i: int|
        0 <= i < more.len() && (#[trigger] more[i]).0 == k by {
        if k == hash {
            assert(more[walk.len() as int].0 == k);
        } else {
            assert(map.contains_key(k));
            let i = choose|i: int| 0 <= i < walk.len() && (#[trigger] walk[i]).0 == k;
            assert(more[i].0 == k);
        }
    }
    assert forall|i: int, j: int| 0 <= i < j < more.len() implies (#[trigger] more[i]).0 != (
    #[trigger] more[j]).0 by {
        assert(map.contains_key(walk[i].0));
    }
    assert(is_walk(more, larger));
    lemma_total_below(walk, map, limit);
    lemma_total_below(more, larger, limit);
    law_difficulty_is_summed_up(walk, hash, header, limit);
    assert(is_walk(Seq::<(B256, HeaderView)>::empty(), Map::<B256, HeaderView>::empty()));
    lemma_total_below(Seq::empty(), Map::empty(), limit);
}

/// The total difficulty of a header is its own and that of the headers with smaller numbers, modulo
/// 2^256.
pub proof fn law_total_difficulty_is_a_remainder(map: Map<B256, HeaderView>, target: HeaderView)
    ensures
        total_difficulty(map, target) == (target.difficulty + total_below(
            map,
            target.number as int,
        ))
            % 0x1_0000000000000000_0000000000000000_0000000000000000_0000000000000000nat,
{
}

/// A search for a number gives a whole stored header with this number, or nothing just where none
/// has it; the best number is that of a stored header, and none has a greater one.
pub proof fn law_numbered_and_best_headers(
    map: Map<B256, HeaderView>,
    walk: Seq<(B256, HeaderView)>,
    number: BlockNumber,
    header: HeaderView,
)
    ensures
        is_numbered_header(map, number, Some(header)) <==> (header.number == number
            && map.values().contains(header)),
        is_numbered_header(map, number, None) <==> (forall|hash: B256| #[trigger]
            map.contains_key(hash) ==> map[hash].number != number),
        is_best_number(map, number) <==> (!is_numbered_header(map, number, None) && forall|
            hash: B256,
        | #[trigger]
            map.contains_key(hash) ==> map[hash].number <= number),
        is_best(walk, number) <==> {
            &&& exists|i: int| 0 <= i < walk.len() && (#[trigger] walk[i]).1.number == number
            &&& !exists|i: int| 0 <= i < walk.len() && (#[trigger] walk[i]).1.number > number
        },
{
    if is_numbered_header(map, number, Some(header)) {
        let hash = choose|hash: B256| #[trigger] map.contains_key(hash) && map[hash] == header;
        assert(map.dom().contains(hash) && map[hash] == header);
    }
    if header.number == number && map.values().contains(header) {
        let hash = choose|hash: B256| #[trigger] map.dom().contains(hash) && map[hash] == header;
        assert(map.contains_key(hash));
    }
}

/// A search for a number gives a whole stored block with this number, or nothing just where none
/// has it.
pub proof fn law_numbered_blocks<V>(
    map: Map<B256, BlockView<V>>,
    number: BlockNumber,
    block: BlockView<V>,
)
    ensures
        is_numbered_block(map, number, Some(block)) <==> (block.header.number == number
            && map.values().contains(block)),
        is_numbered_block(map, number, None) <==> (forall|hash: B256| #[trigger]
            map.contains_key(hash) ==> map[hash].header.number != number),
{
    if is_numbered_block(map, number, Some(block)) {
        let hash = choose|hash: B256| #[trigger] map.contains_key(hash) && map[hash] == block;
        assert(map.dom().contains(hash) && map[hash] == block);
    }
    if block.header.number == number && map.values().contains(block) {
        let hash = choose|hash: B256| #[trigger] map.dom().contains(hash) && map[hash] == block;
        assert(map.contains_key(hash));
    }
}

/// Headers that were sealed while a predicate held are the given ones from the first on, each with
/// the hash of itself; the predicate held of them, and not of the next.
pub proof fn law_sealed_while_the_predicate_holds<F: FnMut(&SealedHeader) -> bool>(
    predicate: F,
    headers: Seq<HeaderView>,
    kept: Seq<SealedHeader>,
)
    requires
        is_sealed_while(predicate, headers, kept),
    ensures
        kept.len() <= headers.len(),
        forall|i: int|
            0 <= i < kept.len() ==> (#[trigger] kept[i]).header@ == headers[i] && kept[i].hash
                == header_hash(headers[i]) && call_ensures(predicate, (&kept[i],), true),
        kept.len() < headers.len() ==> exists|rejected: SealedHeader|
            #![trigger rejected.header]
            rejected.header@ == headers[kept.len() as int] && rejected.hash == header_hash(
                headers[kept.len() as int],
            ) && call_ensures(predicate, (&rejected,), false),
{
    assert forall|i: int| 0 <= i < kept.len() implies (#[trigger] kept[i]).header@ == headers[i]
        && kept[i].hash == header_hash(headers[i]) && call_ensures(
        predicate,
        (&kept[i],),
        true,
    ) by {
        assert(kept[i]@.header == headers[i]);
    }
    if kept.len() < headers.len() {
        let rejected = choose|rejected: SealedHeader|
            #![trigger rejected@]
            rejected@ == crate::header::sealed(headers[kept.len() as int]) && call_ensures(
                predicate,
                (&rejected,),
                false,
            );
        assert(rejected.header@ == headers[kept.len() as int]);
    }
}

/// The predicate is asked about the headers from the first on, each with the hash of itself: it
/// accepts as many as are kept, turns down the next, and is asked no more.
pub proof fn law_predicate_is_asked_in_order(headers: Seq<HeaderView>, kept: nat)
    requires
        kept <= headers.len(),
    ensures
        asked_while(headers, kept).len() == if kept < headers.len() {
            kept + 1
        } else {
            kept
        },
        forall|i: int|
            0 <= i < asked_while(headers, kept).len() ==> {
                let (asked, accepted) = #[trigger] asked_while(headers, kept)[i];
                &&& asked.header == headers[i]
                &&& asked.hash == header_hash(headers[i])
                &&& accepted <==> i < kept
            },
{
}

/// The number of a tag: the latest is the greatest number of a stored header, or the error that no
/// header is stored; the earliest is zero; a number is itself; the others have none.
pub proof fn law_number_of_a_tag(
    headers: Map<B256, HeaderView>,
    tag: BlockNumberOrTag,
    number: ProviderResult<Option<BlockNumber>>,
)
    requires
        is_tag_number(headers, tag, number),
    ensures
        tag == BlockNumberOrTag::Latest && (forall|hash: B256| !headers.contains_key(hash))
            ==> number == Err::<Option<BlockNumber>, ProviderError>(
            ProviderError::BestBlockNotFound,
        ),
        tag == BlockNumberOrTag::Latest && (exists|hash: B256| headers.contains_key(hash)) ==> {
            &&& number matches Ok(Some(best))
            &&& exists|hash: B256| #[trigger]
                headers.contains_key(hash) && headers[hash].number == best
            &&& forall|hash: B256| #[trigger]
                headers.contains_key(hash) ==> headers[hash].number <= best
        },
        tag == BlockNumberOrTag::Earliest ==> number == Ok::<_, ProviderError>(Some(0u64)),
        tag matches BlockNumberOrTag::Number(given) ==> number == Ok::<_, ProviderError>(
            Some(given),
        ),
        tag == BlockNumberOrTag::Pending || tag == BlockNumberOrTag::Safe || tag
            == BlockNumberOrTag::Finalized ==> number == Ok::<Option<BlockNumber>, ProviderError>(
            None,
        ),
{
    if tag == BlockNumberOrTag::Latest {
        if let Ok(Some(best)) = number {
            let hash = choose|hash: B256| #[trigger]
                headers.contains_key(hash) && headers[hash].number == best;
            assert(headers.contains_key(hash));
        }
    }
}

/// What an identifier names: under a hash the whole stored block or nothing, under a number a whole
/// stored block with this number or nothing just where none has it. The header that is found by it
/// is the whole header of such a block.
pub proof fn law_identifier_names_a_stored_block<V>(
    headers: Map<B256, HeaderView>,
    blocks: Map<B256, BlockView<V>>,
    id: BlockId,
    block: ProviderResult<Option<BlockView<V>>>,
)
    requires
        is_identified_block(headers, blocks, id, block),
    ensures
        id matches BlockId::Hash(hash) ==> {
            &&& blocks.contains_key(hash.block_hash) ==> block == Ok::<_, ProviderError>(
                Some(blocks[hash.block_hash]),
            ) && header_part(block) == Ok::<_, ProviderError>(
                Some(blocks[hash.block_hash].header),
            )
            &&& !blocks.contains_key(hash.block_hash) ==> block == Ok::<
                Option<BlockView<V>>,
                ProviderError,
            >(None) && header_part(block) == Ok::<Option<HeaderView>, ProviderError>(None)
        },
        block matches Ok(Some(found)) ==> {
            &&& blocks.values().contains(found)
            &&& header_part(block) == Ok::<_, ProviderError>(Some(found.header))
        },
        block == Ok::<Option<BlockView<V>>, ProviderError>(None) ==> header_part(block) == Ok::<
            Option<HeaderView>,
            ProviderError,
        >(None),
        block matches Err(error) ==> {
            &&& error == ProviderError::BestBlockNotFound
            &&& id == BlockId::Number(BlockNumberOrTag::Latest)
            &&& forall|hash: B256| !headers.contains_key(hash)
            &&& header_part(block) == Err::<Option<HeaderView>, ProviderError>(error)
        },
        id matches BlockId::Number(BlockNumberOrTag::Number(number)) ==> match block {
            Ok(Some(found)) => found.header.number == number,
            Ok(None) => forall|hash: B256| #[trigger]
                blocks.contains_key(hash) ==> blocks[hash].header.number != number,
            Err(_) => false,
        },
        id == BlockId::Number(BlockNumberOrTag::Earliest) ==> match block {
            Ok(Some(found)) => found.header.number == 0,
            Ok(None) => forall|hash: B256| #[trigger]
                blocks.contains_key(hash) ==> blocks[hash].header.number != 0,
            Err(_) => false,
        },
        id == BlockId::Number(BlockNumberOrTag::Latest) ==> match block {
            Ok(Some(found)) => is_best_number(headers, found.header.number),
            Ok(None) => forall|hash: B256| #[trigger]
                blocks.contains_key(hash) ==> !is_best_number(headers, blocks[hash].header.number),
            Err(_) => true,
        },
        id == BlockId::Number(BlockNumberOrTag::Pending) || id == BlockId::Number(
            BlockNumberOrTag::Safe,
        ) || id == BlockId::Number(BlockNumberOrTag::Finalized) ==> block == Ok::<
            Option<BlockView<V>>,
            ProviderError,
        >(None),
{
    if let BlockId::Number(tag) = id {
        let number = choose|number: ProviderResult<Option<BlockNumber>>| #[trigger]
            is_tag_number(headers, tag, number) && match number {
                Ok(Some(number)) => block is Ok && is_numbered_block(blocks, number, block->Ok_0),
                Ok(None) => block == Ok::<Option<BlockView<V>>, ProviderError>(None),
                Err(error) => block == Err::<Option<BlockView<V>>, ProviderError>(error),
            };
        assert(is_tag_number(headers, tag, number));
        if let Ok(Some(found)) = block {
            if let Ok(Some(number)) = number {
                law_numbered_blocks(blocks, number, found);
            }
        }
        if tag == BlockNumberOrTag::Latest {
            if let Ok(Some(best)) = number {
                assert forall|other: BlockNumber| #[trigger]
                    is_best_number(headers, other) implies other == best by {
                    crate::laws::law_best_number(headers, best, other, None);
                }
            }
        }
    } else if let BlockId::Hash(hash) = id {
        if blocks.contains_key(hash.block_hash) {
            assert(blocks.dom().contains(hash.block_hash));
            assert(blocks.values().contains(blocks[hash.block_hash]));
        }
    }
}

/// What a hash or number names: under a hash the whole stored block or nothing, under a number a
/// whole stored block with this number or nothing just where none has it.
pub proof fn law_hash_or_number_names_a_stored_block<V>(
    blocks: Map<B256, BlockView<V>>,
    hash: B256,
    number: BlockNumber,
    found: Option<BlockView<V>>,
)
    ensures
        is_named_block(blocks, BlockHashOrNumber::Hash(hash), found) <==> found == (
        if blocks.contains_key(hash) {
            Some(blocks[hash])
        } else {
            None
        }),
        is_named_block(blocks, BlockHashOrNumber::Number(number), found) <==> match found {
            Some(block) => block.header.number == number && blocks.values().contains(block),
            None => forall|hash: B256| #[trigger]
                blocks.contains_key(hash) ==> blocks[hash].header.number != number,
        },
{
    if let Some(block) = found {
        law_numbered_blocks(blocks, number, block);
    }
}

/// On a walk, a hash or number names the first entry that has it, and a tag the number it stands
/// for.
pub proof fn law_hash_or_number_on_a_walk<V>(
    walk: Seq<(B256, BlockView<V>)>,
    hash: B256,
    number: BlockNumber,
    latest: ProviderResult<BlockNumber>,
)
    ensures
        match block_on(walk, BlockHashOrNumber::Hash(hash)) {
            Some(block) => exists|i: int|
                0 <= i < walk.len() && #[trigger] walk[i] == (hash, block) && forall|j: int|
                    0 <= j < i ==> (#[trigger] walk[j]).0 != hash,
            None => forall|j: int| 0 <= j < walk.len() ==> (#[trigger] walk[j]).0 != hash,
        },
        match block_on(walk, BlockHashOrNumber::Number(number)) {
            Some(block) => block.header.number == number && exists|i: int|
                0 <= i < walk.len() && (#[trigger] walk[i]).1 == block && forall|j: int|
                    0 <= j < i ==> (#[trigger] walk[j]).1.header.number != number,
            None => forall|j: int|
                0 <= j < walk.len() ==> (#[trigger] walk[j]).1.header.number != number,
        },
        tag_number(latest, BlockNumberOrTag::Latest) == (match latest {
            Ok(best) => Ok(Some(best)),
            Err(error) => Err(error),
        }),
        tag_number(latest, BlockNumberOrTag::Earliest) == Ok::<_, ProviderError>(Some(0u64)),
        tag_number(latest, BlockNumberOrTag::Number(number)) == Ok::<_, ProviderError>(
            Some(number),
        ),
        tag_number(latest, BlockNumberOrTag::Pending) == Ok::<Option<u64>, ProviderError>(None),
        tag_number(latest, BlockNumberOrTag::Safe) == Ok::<Option<u64>, ProviderError>(None),
        tag_number(latest, BlockNumberOrTag::Finalized) == Ok::<Option<u64>, ProviderError>(None),
{
    let by_hash = has_key::<V>(hash);
    lemma_first_position(walk, by_hash);
    match first_position(walk, by_hash) {
        Some(i) => {
            assert forall|j: int| 0 <= j < i implies (#[trigger] walk[j]).0 != hash by {
                assert(!by_hash(walk[j]));
            }
            assert(walk[i] == (hash, walk[i].1));
        },
        None => {
            assert forall|j: int| 0 <= j < walk.len() implies (#[trigger] walk[j]).0 != hash by {
                assert(!by_hash(walk[j]));
            }
        },
    }
    let by_number = crate::blocks::has_number::<V>(number);
    lemma_first_position(walk, by_number);
    match first_position(walk, by_number) {
        Some(i) => {
            assert forall|j: int| 0 <= j < i implies (#[trigger] walk[j]).1.header.number
                != number by {
                assert(!by_number(walk[j]));
            }
            assert(by_number(walk[i]));
        },
        None => {
            assert forall|j: int| 0 <= j < walk.len() implies (#[trigger] walk[j]).1.header.number
                != number by {
                assert(!by_number(walk[j]));
            }
        },
    }
}

/// The transactions of a walk are numbered block by block: a further block continues the numbers
/// with its transactions in order, and starts at the number that the blocks before it leave.
pub proof fn law_transactions_are_numbered_block_by_block<V>(
    walk: Seq<(B256, BlockView<V>)>,
    hash: B256,
    block: BlockView<V>,
)
    ensures
        tx_list(Seq::<(B256, BlockView<V>)>::empty()) == Seq::<V>::empty(),
        tx_list(walk.push((hash, block))) == tx_list(walk) + block.transactions,
        first_number(walk.push((hash, block)), walk.len() as int) == tx_list(walk).len(),
{
    let more = walk.push((hash, block));
    assert(more.drop_last() =~= walk);
    assert(more.take(walk.len() as int) =~= walk);
}

/// The transaction with a number is the one at this place, and there is none past the end.
pub proof fn law_number_is_a_place<V>(items: Seq<V>, id: TxNumber)
    requires
        id <= usize::MAX,
    ensures
        id < items.len() ==> nth(items, id) == Some(items[id as int]),
        id >= items.len() ==> nth(items, id) is None,
{
}

/// A block holds the numbers from the one at which it starts, as many as it has transactions.
pub proof fn law_block_holds_its_numbers<V>(walk: Seq<(B256, BlockView<V>)>, b: int, id: int)
    ensures
        holds_number(walk, b, id) <==> {
            &&& 0 <= b < walk.len()
            &&& tx_list(walk.take(b)).len() <= id
            &&& id < tx_list(walk.take(b)).len() + walk[b].1.transactions.len()
        },
{
}

/// One more item is taken into a range just where its place lies in the range, and its signer is
/// added just where it can be recovered.
pub proof fn law_items_are_taken_in_order<T: SignedTransaction>(
    items: Seq<T::V>,
    item: T::V,
    range: NumberRange,
)
    requires
        items.len() <= u64::MAX,
    ensures
        items_in_range(Seq::<T::V>::empty(), range) == Seq::<T::V>::empty(),
        range.holds(items.len() as u64) ==> items_in_range(items.push(item), range)
            == items_in_range(items, range).push(item),
        !range.holds(items.len() as u64) ==> items_in_range(items.push(item), range)
            == items_in_range(items, range),
        known_signers::<T>(Seq::empty()) == Seq::<Address>::empty(),
        T::signer_of(item) matches Some(signer) ==> known_signers::<T>(items.push(item))
            == known_signers::<T>(items).push(signer),
        T::signer_of(item) is None ==> known_signers::<T>(items.push(item)) == known_signers::<T>(
            items,
        ),
{
    assert(items.push(item).drop_last() =~= items);
}

/// A transaction is stored where some stored block has it.
pub proof fn law_stored_means_in_a_block<V>(
    map: Map<B256, BlockView<V>>,
    p: spec_fn(V) -> bool,
)
    ensures
        is_stored(map, p) <==> exists|hash: B256, tx: V|
            map.contains_key(hash) && #[trigger] map[hash].transactions.contains(tx) && p(tx),
{
    if is_stored(map, p) {
        let (hash, i) = choose|hash: B256, i: int|
            map.contains_key(hash) && 0 <= i < map[hash].transactions.len() && p(
                #[trigger] map[hash].transactions[i],
            );
        assert(map[hash].transactions.contains(map[hash].transactions[i]));
    }
    if exists|hash: B256, tx: V|
        map.contains_key(hash) && #[trigger] map[hash].transactions.contains(tx) && p(tx) {
        let (hash, tx) = choose|hash: B256, tx: V|
            map.contains_key(hash) && #[trigger] map[hash].transactions.contains(tx) && p(tx);
        let i = choose|i: int|
            0 <= i < map[hash].transactions.len() && map[hash].transactions[i] == tx;
        assert(p(map[hash].transactions[i]));
    }
}

/// The place of a transaction that was searched for: the first block that has a match, the first
/// match in it, and no match before it; or no place just where no block has a match.
pub proof fn law_place_is_the_first_match<V>(
    walk: Seq<(B256, BlockView<V>)>,
    p: spec_fn(V) -> bool,
)
    ensures
        match location(walk, p) {
            Some((b, i)) => {
                &&& 0 <= b < walk.len()
                &&& 0 <= i < walk[b].1.transactions.len()
                &&& p(walk[b].1.transactions[i])
                &&& forall|j: int| 0 <= j < i ==> !p(#[trigger] walk[b].1.transactions[j])
                &&& forall|c: int, j: int|
                    0 <= c < b && 0 <= j < walk[c].1.transactions.len() ==> !p(
                        #[trigger] walk[c].1.transactions[j],
                    )
            },
            None => forall|c: int, j: int|
                0 <= c < walk.len() && 0 <= j < walk[c].1.transactions.len() ==> !p(
                    #[trigger] walk[c].1.transactions[j],
                ),
        },
{
    let q = has_match(p);
    lemma_first_position(walk, q);
    let end = match first_position(walk, q) {
        Some(b) => b,
        None => walk.len() as int,
    };
    assert forall|c: int, j: int| 0 <= c < end && 0 <= j
        < walk[c].1.transactions.len() implies !p(#[trigger] walk[c].1.transactions[j]) by {
        assert(!q(walk[c]));
        lemma_first_position(walk[c].1.transactions, p);
    }
    if let Some(b) = first_position(walk, q) {
        lemma_first_position(walk[b].1.transactions, p);
    }
}

/// The data on a transaction is that of the block it stands in: the block's hash, number, base fee,
/// excess blob gas and timestamp, and the index at which the block has it.
pub proof fn law_place_data_is_that_of_the_block<T: SignedTransaction>(
    map: Map<B256, BlockView<T::V>>,
    walk: Seq<(B256, BlockView<T::V>)>,
    hash: TxHash,
)
    requires
        is_walk(walk, map),
        forall|i: int|
            0 <= i < walk.len() ==> (#[trigger] walk[i]).1.transactions.len() <= u64::MAX,
    ensures
        location(walk, has_hash::<T>(hash)) matches Some((b, i)) ==> {
            let meta = meta_of(walk[b], hash, i);
            let block = map[meta.block_hash];
            &&& map.contains_key(meta.block_hash)
            &&& meta.tx_hash == hash
            &&& meta.index < block.transactions.len()
            &&& T::hash_of(block.transactions[meta.index as int]) == hash
            &&& block.transactions[meta.index as int] == walk[b].1.transactions[i]
            &&& meta.block_number == block.header.number
            &&& meta.base_fee == block.header.base_fee_per_gas
            &&& meta.excess_blob_gas == block.header.excess_blob_gas
            &&& meta.timestamp == block.header.timestamp
        },
{
    law_place_is_the_first_match(walk, has_hash::<T>(hash));
    if let Some((b, i)) = location(walk, has_hash::<T>(hash)) {
        assert(map.contains_key(walk[b].0));
        assert(map[walk[b].0] == walk[b].1);
        assert(walk[b].1.transactions.len() <= u64::MAX);
    }
}

/// What is found first on some walk is found on a walk of the stored blocks.
pub proof fn law_found_first_means_on_a_walk<V>(
    headers: Map<B256, HeaderView>,
    blocks: Map<B256, BlockView<V>>,
    named: BlockHashOrNumber,
    found: Option<BlockView<V>>,
    id: BlockId,
    identified: ProviderResult<Option<BlockView<V>>>,
)
    ensures
        is_first_named(blocks, named, found) ==> exists|walk: Seq<(B256, BlockView<V>)>| #[trigger]
            is_walk(walk, blocks) && found == block_on(walk, named),
        is_first_identified(headers, blocks, id, identified) ==> exists|
            walk: Seq<(B256, BlockView<V>)>,
            latest: ProviderResult<BlockNumber>,
        |
            #![trigger is_walk(walk, blocks), is_latest_number(headers, latest)]
            is_walk(walk, blocks) && is_latest_number(headers, latest) && identified
                == block_by_id_on(walk, latest, id),
        is_latest_number(headers, Err(ProviderError::BestBlockNotFound)) <==> headers == Map::<
            B256,
            HeaderView,
        >::empty(),
        forall|number: BlockNumber| #[trigger]
            is_latest_number(headers, Ok(number)) <==> is_best_number(headers, number),
        forall|error: ProviderError| #[trigger]
            is_latest_number(headers, Err(error)) ==> error == ProviderError::BestBlockNotFound,
{
}

} // verus!
