//! Queries for the blocks of a walk over the stored blocks.

use crate::block::{
    copy_transactions, Block, BlockHashOrNumber, BlockId, BlockNumberOrTag, BlockView,
};
use crate::error::{found_view, ProviderResult};
use crate::primitives::{bytes_equal, opt_view, seq_view, B256, BlockNumber};
use crate::range::{inclusive_contains, inclusive_holds, NumberRange};
use crate::search::{
    comes_before, first_match, first_position, is_sorted_selection, is_stable_order,
    lemma_first_position, lemma_is_first, lemma_none_matches, pick, stable_order,
};
use crate::store::{is_walk, walk_view};
use crate::transaction::SignedTransaction;
use std::collections::BTreeMap;
use std::ops::RangeInclusive;
use vstd::prelude::*;
use vstd::std_specs::cmp::OrdSpec;
use vstd::std_specs::iter::IteratorSpec;

verus! {

/// Whether a block has this number.
pub open spec fn has_number<V>(number: BlockNumber) -> spec_fn((B256, BlockView<V>)) -> bool {
    |entry: (B256, BlockView<V>)| entry.1.header.number == number
}

/// The blocks of a walk, without their hashes.
pub open spec fn blocks_of<V>(walk: Seq<(B256, BlockView<V>)>) -> Seq<BlockView<V>> {
    walk.map_values(|entry: (B256, BlockView<V>)| entry.1)
}

/// The hashes of a walk, without their blocks.
pub open spec fn hashes_of<V>(walk: Seq<(B256, BlockView<V>)>) -> Seq<B256> {
    walk.map_values(|entry: (B256, BlockView<V>)| entry.0)
}

/// The transactions of each block of a walk.
pub open spec fn bodies_of<V>(walk: Seq<(B256, BlockView<V>)>) -> Seq<Seq<V>> {
    walk.map_values(|entry: (B256, BlockView<V>)| entry.1.transactions)
}

/// The number of each block whose number is wanted, `None` for the others.
pub open spec fn wanted_numbers<V>(
    walk: Seq<(B256, BlockView<V>)>,
    wanted: spec_fn(BlockNumber) -> bool,
) -> Seq<Option<u64>> {
    Seq::new(
        walk.len(),
        |i: int|
            if wanted(walk[i].1.header.number) {
                Some(walk[i].1.header.number)
            } else {
                None
            },
    )
}

/// Whether no later block of the walk has the number of the one at position `i`.
pub open spec fn is_last_of_number<V>(walk: Seq<(B256, BlockView<V>)>, i: int) -> bool {
    forall|j: int|
        i < j < walk.len() ==> (#[trigger] walk[j]).1.header.number != walk[i].1.header.number
}

/// The number of each block whose number lies in the range and recurs no more in the walk, `None`
/// for the others.
pub open spec fn last_numbers_in_range<V>(
    walk: Seq<(B256, BlockView<V>)>,
    range: NumberRange,
) -> Seq<Option<u64>> {
    Seq::new(
        walk.len(),
        |i: int|
            if range.holds(walk[i].1.header.number) && is_last_of_number(walk, i) {
                Some(walk[i].1.header.number)
            } else {
                None
            },
    )
}

/// The views of lists of transactions.
pub open spec fn bodies_view<T: View>(bodies: Seq<Vec<T>>) -> Seq<Seq<T::V>> {
    bodies.map_values(|body: Vec<T>| seq_view(body@))
}

/// Copies the first block with this number.
pub fn block_by_number<T: SignedTransaction>(
    walk: &[(B256, &Block<T>)],
    number: BlockNumber,
) -> (block: Option<Block<T>>)
    ensures
        match first_match(walk_view(walk@), has_number(number)) {
            Some(entry) => opt_view(block) == Some(entry.1),
            None => block is None,
        },
{
    let ghost views = walk_view(walk@);
    let ghost p = has_number(number);
    let mut i: usize = 0;
    while i < walk.len()
        invariant
            i <= walk.len(),
            views == walk_view(walk@),
            p == has_number::<T::V>(number),
            forall|j: int| 0 <= j < i ==> !p(#[trigger] views[j]),
        decreases walk.len() - i,
    {
        assert(views[i as int].1 == walk[i as int].1@);
        if walk[i].1.header.number == number {
            proof {
                lemma_is_first(views, p, i as int);
            }
            return Some(walk[i].1.duplicate());
        }
        i += 1;
    }
    proof {
        lemma_none_matches(views, p);
    }
    None
}

/// The first block of a walk that has the hash or number.
pub open spec fn block_on<V>(walk: Seq<(B256, BlockView<V>)>, id: BlockHashOrNumber) -> Option<
    BlockView<V>,
> {
    let entry = match id {
        BlockHashOrNumber::Hash(hash) => first_match(walk, has_key(hash)),
        BlockHashOrNumber::Number(number) => first_match(walk, has_number(number)),
    };
    match entry {
        Some(entry) => Some(entry.1),
        None => None,
    }
}

/// The number that a tag stands for, given the number of the latest block or the error that there
/// is none.
pub open spec fn tag_number(latest: ProviderResult<BlockNumber>, tag: BlockNumberOrTag) ->
    ProviderResult<Option<BlockNumber>> {
    match tag {
        BlockNumberOrTag::Latest => match latest {
            Ok(number) => Ok(Some(number)),
            Err(error) => Err(error),
        },
        BlockNumberOrTag::Earliest => Ok(Some(0)),
        BlockNumberOrTag::Number(number) => Ok(Some(number)),
        _ => Ok(None),
    }
}

/// The first block of a walk that an identifier names, given the number of the latest block or the
/// error that there is none.
pub open spec fn block_by_id_on<V>(
    walk: Seq<(B256, BlockView<V>)>,
    latest: ProviderResult<BlockNumber>,
    id: BlockId,
) -> ProviderResult<Option<BlockView<V>>> {
    match id {
        BlockId::Hash(hash) => Ok(block_on(walk, BlockHashOrNumber::Hash(hash.block_hash))),
        BlockId::Number(tag) => match tag_number(latest, tag) {
            Ok(Some(number)) => Ok(block_on(walk, BlockHashOrNumber::Number(number))),
            Ok(None) => Ok(None),
            Err(error) => Err(error),
        },
    }
}

/// Copies the first block that is stored under this hash.
fn block_by_hash<T: SignedTransaction>(walk: &[(B256, &Block<T>)], hash: &B256) -> (block: Option<
    Block<T>,
>)
    ensures
        opt_view(block) == block_on(walk_view(walk@), BlockHashOrNumber::Hash(*hash)),
{
    let ghost views = walk_view(walk@);
    let ghost p = has_key(*hash);
    let mut i: usize = 0;
    while i < walk.len()
        invariant
            i <= walk.len(),
            views == walk_view(walk@),
            p == has_key::<T::V>(*hash),
            forall|j: int| 0 <= j < i ==> !p(#[trigger] views[j]),
        decreases walk.len() - i,
    {
        assert(views[i as int] == (walk[i as int].0, walk[i as int].1@));
        if bytes_equal(&walk[i].0, hash) {
            proof {
                lemma_is_first(views, p, i as int);
            }
            return Some(walk[i].1.duplicate());
        }
        i += 1;
    }
    proof {
        lemma_none_matches(views, p);
    }
    None
}

/// Copies the first block that has the hash or number.
pub fn block<T: SignedTransaction>(walk: &[(B256, &Block<T>)], id: BlockHashOrNumber) -> (block:
    Option<Block<T>>)
    ensures
        opt_view(block) == block_on(walk_view(walk@), id),
{
    match id {
        BlockHashOrNumber::Hash(hash) => block_by_hash(walk, &hash),
        BlockHashOrNumber::Number(number) => block_by_number(walk, number),
    }
}

/// Finds the number that a tag stands for, given the number of the latest block or the error that
/// there is none. The pending, the finalized and the safe block have no number.
pub fn number_of_tag(latest: ProviderResult<BlockNumber>, tag: BlockNumberOrTag) -> (number:
    ProviderResult<Option<BlockNumber>>)
    ensures
        number == tag_number(latest, tag),
{
    match tag {
        BlockNumberOrTag::Latest => match latest {
            Ok(number) => Ok(Some(number)),
            Err(error) => Err(error),
        },
        BlockNumberOrTag::Earliest => Ok(Some(0)),
        BlockNumberOrTag::Number(number) => Ok(Some(number)),
        BlockNumberOrTag::Pending | BlockNumberOrTag::Finalized | BlockNumberOrTag::Safe => Ok(
            None,
        ),
    }
}

/// Copies the first block that an identifier names, given the number of the latest block or the
/// error that there is none.
pub fn block_by_id<T: SignedTransaction>(
    walk: &[(B256, &Block<T>)],
    latest: ProviderResult<BlockNumber>,
    id: BlockId,
) -> (found: ProviderResult<Option<Block<T>>>)
    ensures
        found_view(found) == block_by_id_on(walk_view(walk@), latest, id),
{
    match id {
        BlockId::Hash(hash) => Ok(block(walk, BlockHashOrNumber::Hash(hash.block_hash))),
        BlockId::Number(tag) => match number_of_tag(latest, tag) {
            Ok(Some(number)) => Ok(block(walk, BlockHashOrNumber::Number(number))),
            Ok(None) => Ok(None),
            Err(error) => Err(error),
        },
    }
}

/// Finds the hash of the first block with this number.
pub fn block_hash<T: View>(walk: &[(B256, &Block<T>)], number: BlockNumber) -> (hash: Option<B256>)
    ensures
        hash == (match first_match(walk_view(walk@), has_number(number)) {
            Some(entry) => Some(entry.0),
            None => None,
        }),
{
    let ghost views = walk_view(walk@);
    let ghost p = has_number(number);
    let mut i: usize = 0;
    while i < walk.len()
        invariant
            i <= walk.len(),
            views == walk_view(walk@),
            p == has_number::<T::V>(number),
            forall|j: int| 0 <= j < i ==> !p(#[trigger] views[j]),
        decreases walk.len() - i,
    {
        assert(views[i as int] == (walk[i as int].0, walk[i as int].1@));
        if walk[i].1.header.number == number {
            proof {
                lemma_is_first(views, p, i as int);
            }
            return Some(walk[i].0);
        }
        i += 1;
    }
    proof {
        lemma_none_matches(views, p);
    }
    None
}

/// Whether an entry has this hash.
pub open spec fn has_key<V>(hash: B256) -> spec_fn((B256, BlockView<V>)) -> bool {
    |entry: (B256, BlockView<V>)| entry.0 == hash
}

/// Finds the number of the first block that is stored under this hash.
pub fn block_number<T: View>(walk: &[(B256, &Block<T>)], hash: &B256) -> (number: Option<
    BlockNumber,
>)
    ensures
        number == (match first_match(walk_view(walk@), has_key(*hash)) {
            Some(entry) => Some(entry.1.header.number),
            None => None,
        }),
{
    let ghost views = walk_view(walk@);
    let ghost p = has_key(*hash);
    let mut i: usize = 0;
    while i < walk.len()
        invariant
            i <= walk.len(),
            views == walk_view(walk@),
            p == has_key::<T::V>(*hash),
            forall|j: int| 0 <= j < i ==> !p(#[trigger] views[j]),
        decreases walk.len() - i,
    {
        assert(views[i as int] == (walk[i as int].0, walk[i as int].1@));
        if bytes_equal(&walk[i].0, hash) {
            proof {
                lemma_is_first(views, p, i as int);
            }
            return Some(walk[i].1.header.number);
        }
        i += 1;
    }
    proof {
        lemma_none_matches(views, p);
    }
    None
}

/// The numbers from `start` up to but not including `end`.
pub open spec fn from_to(start: BlockNumber, end: BlockNumber) -> spec_fn(BlockNumber) -> bool {
    |number: BlockNumber| start <= number < end
}

/// Lists the hashes of the blocks numbered from `start` up to but not including `end`, by ascending
/// number.
pub fn canonical_hashes_range<T: View>(
    walk: &[(B256, &Block<T>)],
    start: BlockNumber,
    end: BlockNumber,
) -> (hashes: Vec<B256>)
    ensures
        is_sorted_selection(
            hashes@,
            hashes_of(walk_view(walk@)),
            wanted_numbers(walk_view(walk@), from_to(start, end)),
        ),
{
    let ghost views = walk_view(walk@);
    let ghost expected = wanted_numbers(views, from_to(start, end));
    let mut keys: Vec<Option<u64>> = Vec::new();
    let mut i: usize = 0;
    while i < walk.len()
        invariant
            i <= walk.len(),
            views == walk_view(walk@),
            expected == wanted_numbers(views, from_to(start, end)),
            keys@ == expected.take(i as int),
        decreases walk.len() - i,
    {
        let number: u64 = walk[i].1.header.number;
        if start <= number && number < end {
            keys.push(Some(number));
        } else {
            keys.push(None);
        }
        i += 1;
        assert(keys@ =~= expected.take(i as int));
    }
    assert(keys@ =~= expected);
    let order = stable_order(&keys);
    let mut hashes: Vec<B256> = Vec::new();
    let mut k: usize = 0;
    while k < order.len()
        invariant
            k <= order.len(),
            views == walk_view(walk@),
            forall|l: int| 0 <= l < order.len() ==> (#[trigger] order[l]) < walk.len(),
            hashes@ == pick(hashes_of(views), order@).take(k as int),
        decreases order.len() - k,
    {
        hashes.push(walk[order[k]].0);
        assert(hashes_of(views)[order[k as int] as int] == hashes@.last());
        k += 1;
    }
    assert(hashes@ =~= pick(hashes_of(views), order@));
    hashes
}

/// The numbers of an inclusive range.
pub open spec fn within(range: RangeInclusive<BlockNumber>) -> spec_fn(BlockNumber) -> bool {
    |number: BlockNumber| inclusive_holds(range, number)
}

/// Copies the blocks whose numbers lie in a range, by ascending number.
pub fn block_range<T: SignedTransaction>(
    walk: &[(B256, &Block<T>)],
    range: &RangeInclusive<BlockNumber>,
) -> (blocks: Vec<Block<T>>)
    ensures
        is_sorted_selection(
            seq_view(blocks@),
            blocks_of(walk_view(walk@)),
            wanted_numbers(walk_view(walk@), within(*range)),
        ),
{
    let ghost views = walk_view(walk@);
    let ghost expected = wanted_numbers(views, within(*range));
    let mut keys: Vec<Option<u64>> = Vec::new();
    let mut i: usize = 0;
    while i < walk.len()
        invariant
            i <= walk.len(),
            views == walk_view(walk@),
            expected == wanted_numbers(views, within(*range)),
            keys@ == expected.take(i as int),
        decreases walk.len() - i,
    {
        let number: u64 = walk[i].1.header.number;
        if inclusive_contains(range, number) {
            keys.push(Some(number));
        } else {
            keys.push(None);
        }
        i += 1;
        assert(keys@ =~= expected.take(i as int));
    }
    assert(keys@ =~= expected);
    let order = stable_order(&keys);
    let mut blocks: Vec<Block<T>> = Vec::new();
    let mut k: usize = 0;
    while k < order.len()
        invariant
            k <= order.len(),
            views == walk_view(walk@),
            forall|l: int| 0 <= l < order.len() ==> (#[trigger] order[l]) < walk.len(),
            seq_view(blocks@) == pick(blocks_of(views), order@).take(k as int),
        decreases order.len() - k,
    {
        let ghost before = blocks@;
        blocks.push(walk[order[k]].1.duplicate());
        assert(blocks_of(views)[order[k as int] as int] == blocks@.last()@);
        k += 1;
        assert(seq_view(blocks@) =~= seq_view(before).push(blocks@.last()@));
    }
    assert(seq_view(blocks@) =~= pick(blocks_of(views), order@));
    blocks
}

/// Lists the entries of a map by ascending key.
fn ascending_entries(map: &BTreeMap<u64, usize>) -> (entries: Vec<(u64, usize)>)
    ensures
        forall|i: int, j: int|
            0 <= i < j < entries.len() ==> (#[trigger] entries[i]).0 < (#[trigger] entries[j]).0,
        forall|i: int|
            0 <= i < entries.len() ==> map@.contains_key((#[trigger] entries[i]).0)
                && map@[entries[i].0] == entries[i].1,
        forall|n: u64| #[trigger]
            map@.contains_key(n) ==> exists|i: int|
                0 <= i < entries.len() && (#[trigger] entries[i]).0 == n,
{
    broadcast use vstd::std_specs::btree::group_btree_axioms;
    broadcast use vstd::laws_cmp::group_laws_cmp;

    let mut entries: Vec<(u64, usize)> = Vec::new();
    let iter = map.iter();
    let ghost all = iter.remaining();
    let ghost keys = all.map_values(|entry: (&u64, &usize)| *entry.0);
    assert(vstd::std_specs::btree::increasing_seq(keys));
    for entry in walk: iter
        invariant
            walk.seq() == all,
            entries.len() == walk.index(),
            forall|i: int|
                0 <= i < entries.len() ==> #[trigger] entries[i] == (*all[i].0, *all[i].1),
    {
        entries.push((*entry.0, *entry.1));
    }
    proof {
        assert forall|i: int, j: int| 0 <= i < j < entries.len() implies (#[trigger] entries[i]).0
            < (#[trigger] entries[j]).0 by {
            assert(keys[i].cmp_spec(&keys[j]) is Less);
        }
        assert forall|i: int| 0 <= i < entries.len() implies map@.contains_key(
            (#[trigger] entries[i]).0,
        ) && map@[entries[i].0] == entries[i].1 by {
            assert(map@.contains_key(*all[i].0));
        }
        assert forall|n: u64| #[trigger] map@.contains_key(n) implies exists|i: int|
            0 <= i < entries.len() && (#[trigger] entries[i]).0 == n by {
            assert(all.contains((&n, &map@[n])));
            let i = choose|i: int| 0 <= i < all.len() && all[i] == (&n, &map@[n]);
            assert(entries[i].0 == n);
        }
    }
    entries
}

/// Whether a map holds, for each number in the range that occurs in the walk, the position at
/// which it occurs last.
spec fn maps_last_positions<V>(
    map: Map<u64, usize>,
    walk: Seq<(B256, BlockView<V>)>,
    range: NumberRange,
) -> bool {
    &&& forall|n: u64| #[trigger]
        map.contains_key(n) ==> map[n] < walk.len() && walk[map[n] as int].1.header.number == n
            && range.holds(n) && is_last_of_number(walk, map[n] as int)
    &&& forall|i: int|
        0 <= i < walk.len() && range.holds((#[trigger] walk[i]).1.header.number)
            ==> map.contains_key(walk[i].1.header.number)
}

/// Maps a number to a position, in place of any earlier position.
fn record(map: &mut BTreeMap<u64, usize>, number: u64, position: usize)
    ensures
        final(map)@ == old(map)@.insert(number, position),
{
    broadcast use vstd::std_specs::btree::group_btree_axioms;
    broadcast use vstd::laws_cmp::group_laws_cmp;

    map.insert(number, position);
}

/// Maps each number in the range to the position of the last block that has it.
fn last_positions<T: View>(walk: &[(B256, &Block<T>)], range: &NumberRange) -> (map: BTreeMap<
    u64,
    usize,
>)
    ensures
        maps_last_positions(map@, walk_view(walk@), *range),
{
    let ghost views = walk_view(walk@);
    let mut map: BTreeMap<u64, usize> = BTreeMap::new();
    let mut i: usize = 0;
    while i < walk.len()
        invariant
            i <= walk.len(),
            views == walk_view(walk@),
            maps_last_positions(map@, views.take(i as int), *range),
        decreases walk.len() - i,
    {
        let number: u64 = walk[i].1.header.number;
        let ghost before = map@;
        if range.contains(number) {
            record(&mut map, number, i);
        }
        proof {
            lemma_last_position_added(before, views, *range, i, map@);
        }
        i += 1;
    }
    assert(views.take(views.len() as int) =~= views);
    map
}

/// Recording the newest block keeps the last positions right.
proof fn lemma_last_position_added<V>(
    before: Map<u64, usize>,
    walk: Seq<(B256, BlockView<V>)>,
    range: NumberRange,
    i: usize,
    after: Map<u64, usize>,
)
    requires
        i < walk.len(),
        maps_last_positions(before, walk.take(i as int), range),
        after == (if range.holds(walk[i as int].1.header.number) {
            before.insert(walk[i as int].1.header.number, i)
        } else {
            before
        }),
    ensures
        maps_last_positions(after, walk.take(i + 1), range),
{
    let seen = walk.take(i as int);
    let next = walk.take(i + 1);
    let number = walk[i as int].1.header.number;
    assert(next =~= seen.push(walk[i as int]));
    assert forall|n: u64| #[trigger] after.contains_key(n) implies after[n] < next.len()
        && next[after[n] as int].1.header.number == n && range.holds(n) && is_last_of_number(
        next,
        after[n] as int,
    ) by {
        if n != number {
            assert(before.contains_key(n));
            let last = before[n] as int;
            assert(is_last_of_number(seen, last));
            assert forall|j: int| last < j < next.len() implies (#[trigger] next[j]).1.header.number
                != n by {
                if j < i {
                    assert(seen[j].1.header.number != n);
                }
            }
        }
    }
    assert forall|j: int|
        0 <= j < next.len() && range.holds(
            (#[trigger] next[j]).1.header.number,
        ) implies after.contains_key(next[j].1.header.number) by {
        if j < i {
            assert(range.holds(seen[j].1.header.number));
        }
    }
}

/// The last positions, by ascending number, are a stable order of the numbers that recur no more.
proof fn lemma_last_positions_in_order<V>(
    entries: Seq<(u64, usize)>,
    map: Map<u64, usize>,
    walk: Seq<(B256, BlockView<V>)>,
    range: NumberRange,
)
    requires
        maps_last_positions(map, walk, range),
        forall|i: int, j: int|
            0 <= i < j < entries.len() ==> (#[trigger] entries[i]).0 < (#[trigger] entries[j]).0,
        forall|i: int|
            0 <= i < entries.len() ==> map.contains_key((#[trigger] entries[i]).0)
                && map[entries[i].0] == entries[i].1,
        forall|n: u64| #[trigger]
            map.contains_key(n) ==> exists|i: int|
                0 <= i < entries.len() && (#[trigger] entries[i]).0 == n,
    ensures
        is_stable_order(
            entries.map_values(|entry: (u64, usize)| entry.1),
            last_numbers_in_range(walk, range),
        ),
{
    let order = entries.map_values(|entry: (u64, usize)| entry.1);
    let keys = last_numbers_in_range(walk, range);
    assert forall|k: int| 0 <= k < order.len() implies (#[trigger] order[k]) < keys.len()
        && keys[order[k] as int] == Some(entries[k].0) by {
        assert(map.contains_key(entries[k].0));
    }
    assert forall|i: int| 0 <= i < keys.len() && (#[trigger] keys[i]) is Some implies exists|k: int|
        0 <= k < order.len() && (#[trigger] order[k]) == i by {
        let number = walk[i].1.header.number;
        assert(map.contains_key(number));
        let last = map[number] as int;
        if last < i {
            assert(is_last_of_number(walk, last));
            assert(walk[i].1.header.number != walk[last].1.header.number);
        } else if i < last {
            assert(is_last_of_number(walk, i));
            assert(walk[last].1.header.number != walk[i].1.header.number);
        }
        let k = choose|k: int| 0 <= k < entries.len() && (#[trigger] entries[k]).0 == number;
        assert(order[k] == i);
    }
    assert forall|k: int, l: int| 0 <= k < l < order.len() implies comes_before(
        keys,
        #[trigger] order[k],
        #[trigger] order[l],
    ) by {
        assert(entries[k].0 < entries[l].0);
    }
}

/// Copies the transactions of the blocks whose numbers lie in a range, block by block and by
/// ascending number. Where several blocks have one number, the last of the walk stands for it.
pub fn transactions_by_block_range<T: SignedTransaction>(
    walk: &[(B256, &Block<T>)],
    range: &NumberRange,
) -> (bodies: Vec<Vec<T>>)
    ensures
        is_sorted_selection(
            bodies_view(bodies@),
            bodies_of(walk_view(walk@)),
            last_numbers_in_range(walk_view(walk@), *range),
        ),
{
    let ghost views = walk_view(walk@);
    let map = last_positions(walk, range);
    let entries = ascending_entries(&map);
    let ghost order = entries@.map_values(|entry: (u64, usize)| entry.1);
    proof {
        lemma_last_positions_in_order(entries@, map@, views, *range);
    }
    let mut bodies: Vec<Vec<T>> = Vec::new();
    let mut k: usize = 0;
    while k < entries.len()
        invariant
            k <= entries.len(),
            views == walk_view(walk@),
            order == entries@.map_values(|entry: (u64, usize)| entry.1),
            forall|l: int| 0 <= l < order.len() ==> (#[trigger] order[l]) < walk.len(),
            bodies_view(bodies@) == pick(bodies_of(views), order).take(k as int),
        decreases entries.len() - k,
    {
        let ghost before = bodies@;
        assert(order[k as int] == entries[k as int].1);
        bodies.push(copy_transactions(&walk[entries[k].1].1.body.transactions));
        assert(bodies_of(views)[order[k as int] as int] == seq_view(bodies@.last()@));
        k += 1;
        assert(bodies_view(bodies@) =~= bodies_view(before).push(seq_view(bodies@.last()@)));
    }
    assert(bodies_view(bodies@) =~= pick(bodies_of(views), order));
    bodies
}

/// Whether `found` is a block of the map with this number, or `None` where the map has none.
pub open spec fn is_numbered_block<V>(
    map: Map<B256, BlockView<V>>,
    number: BlockNumber,
    found: Option<BlockView<V>>,
) -> bool {
    match found {
        Some(block) => exists|hash: B256| #[trigger]
            map.contains_key(hash) && map[hash] == block && block.header.number == number,
        None => forall|hash: B256| #[trigger]
            map.contains_key(hash) ==> map[hash].header.number != number,
    }
}

/// The first block with a number, on any walk, is a block of the map with this number.
pub proof fn lemma_first_numbered<V>(
    walk: Seq<(B256, BlockView<V>)>,
    map: Map<B256, BlockView<V>>,
    number: BlockNumber,
)
    requires
        is_walk(walk, map),
    ensures
        match first_match(walk, has_number(number)) {
            Some(entry) => {
                &&& map.contains_key(entry.0)
                &&& map[entry.0] == entry.1
                &&& entry.1.header.number == number
                &&& is_numbered_block(map, number, Some(entry.1))
            },
            None => is_numbered_block(map, number, None),
        },
{
    let p = has_number(number);
    lemma_first_position(walk, p);
    match first_position(walk, p) {
        Some(i) => {
            assert(map.contains_key(walk[i].0));
        },
        None => {
            assert forall|hash: B256| #[trigger] map.contains_key(hash) implies number
                != map[hash].header.number by {
                let i = choose|i: int| 0 <= i < walk.len() && (#[trigger] walk[i]).0 == hash;
                assert(!p(walk[i]));
            }
        },
    }
}

/// The first block with a hash, on any walk, is the block that the map has under this hash.
pub proof fn lemma_first_keyed<V>(
    walk: Seq<(B256, BlockView<V>)>,
    map: Map<B256, BlockView<V>>,
    hash: B256,
)
    requires
        is_walk(walk, map),
    ensures
        match first_match(walk, has_key(hash)) {
            Some(entry) => map.get(hash) == Some(entry.1),
            None => map.get(hash) is None,
        },
{
    let p = has_key(hash);
    lemma_first_position(walk, p);
    match first_position(walk, p) {
        Some(i) => {
            assert(map.contains_key(walk[i].0));
        },
        None => {
            if map.contains_key(hash) {
                let i = choose|i: int| 0 <= i < walk.len() && (#[trigger] walk[i]).0 == hash;
                assert(!p(walk[i]));
            }
        },
    }
}

} // verus!
