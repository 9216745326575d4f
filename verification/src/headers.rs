//! Queries for the headers of a walk over the stored headers.

use crate::block::ChainInfo;
use crate::header::{header_hash, sealed, Header, HeaderView, SealedHeader, SealedHeaderView};
use crate::primitives::{
    lemma_u256_bounded, opt_view, seq_view, u256_modulus, zero_hash, B256, BlockNumber, U256,
};
use crate::range::NumberRange;
use crate::search::{
    first_match, first_position, is_sorted_selection, lemma_first_position, lemma_is_first,
    lemma_none_matches, pick, stable_order,
};
use crate::store::{is_walk, lemma_walk_remove, walk_view};
use vstd::prelude::*;

verus! {

/// Whether a header has this number.
pub open spec fn has_number(number: BlockNumber) -> spec_fn((B256, HeaderView)) -> bool {
    |entry: (B256, HeaderView)| entry.1.number == number
}

/// The headers of a walk, without their hashes.
pub open spec fn headers_of(walk: Seq<(B256, HeaderView)>) -> Seq<HeaderView> {
    walk.map_values(|entry: (B256, HeaderView)| entry.1)
}

/// The number of each header whose number lies in the range, `None` for the others.
pub open spec fn numbers_in_range(
    walk: Seq<(B256, HeaderView)>,
    range: NumberRange,
) -> Seq<Option<u64>> {
    Seq::new(
        walk.len(),
        |i: int|
            if range.holds(walk[i].1.number) {
                Some(walk[i].1.number)
            } else {
                None
            },
    )
}

/// The sum of the difficulties of all headers with a number below `limit`.
pub open spec fn difficulty_below(walk: Seq<(B256, HeaderView)>, limit: int) -> nat
    decreases walk.len(),
{
    if walk.len() == 0 {
        0
    } else {
        let earlier = difficulty_below(walk.drop_last(), limit);
        if walk.last().1.number < limit {
            earlier + walk.last().1.difficulty
        } else {
            earlier
        }
    }
}

/// Whether `number` is the greatest number of a header of the walk.
pub open spec fn is_best(walk: Seq<(B256, HeaderView)>, number: BlockNumber) -> bool {
    &&& exists|i: int| 0 <= i < walk.len() && (#[trigger] walk[i]).1.number == number
    &&& forall|i: int| 0 <= i < walk.len() ==> (#[trigger] walk[i]).1.number <= number
}

/// Copies the first header with this number.
pub fn header_by_number(walk: &[(B256, &Header)], number: BlockNumber) -> (header: Option<Header>)
    ensures
        match first_match(walk_view(walk@), has_number(number)) {
            Some(entry) => opt_view(header) == Some(entry.1),
            None => header is None,
        },
{
    let ghost views = walk_view(walk@);
    let ghost p = has_number(number);
    let mut i: usize = 0;
    while i < walk.len()
        invariant
            i <= walk.len(),
            views == walk_view(walk@),
            p == has_number(number),
            forall|j: int| 0 <= j < i ==> !p(#[trigger] views[j]),
        decreases walk.len() - i,
    {
        assert(views[i as int].1 == walk[i as int].1@);
        if walk[i].1.number == number {
            proof {
                lemma_is_first(views, p, i as int);
            }
            return Some(walk[i].1.clone());
        }
        i += 1;
    }
    proof {
        lemma_none_matches(views, p);
    }
    None
}

/// Adds the difficulty of a header and those of all headers with a smaller number.
pub fn header_td(walk: &[(B256, &Header)], target: &Header) -> (td: U256)
    ensures
        td@ == (target@.difficulty + difficulty_below(walk_view(walk@), target@.number as int))
            % u256_modulus(),
{
    let ghost views = walk_view(walk@);
    let mut td: U256 = target.difficulty;
    proof {
        lemma_u256_bounded(target.difficulty);
        vstd::arithmetic::div_mod::lemma_small_mod(target.difficulty@, u256_modulus());
    }
    let mut i: usize = 0;
    while i < walk.len()
        invariant
            i <= walk.len(),
            views == walk_view(walk@),
            td@ == (target@.difficulty + difficulty_below(
                views.take(i as int),
                target@.number as int,
            )) % u256_modulus(),
        decreases walk.len() - i,
    {
        let header = walk[i].1;
        proof {
            let seen = views.take(i + 1);
            assert(seen.drop_last() =~= views.take(i as int));
            assert(seen.last().1 == header@);
        }
        if header.number < target.number {
            proof {
                lemma_add_to_remainder(
                    target@.difficulty + difficulty_below(
                        views.take(i as int),
                        target@.number as int,
                    ),
                    header@.difficulty,
                );
            }
            td = td.wrapping_add(header.difficulty);
        }
        i += 1;
    }
    assert(views.take(views.len() as int) =~= views);
    td
}

/// Adds the difficulties of all headers up to a number.
pub fn header_td_by_number(walk: &[(B256, &Header)], number: BlockNumber) -> (td: U256)
    ensures
        td@ == difficulty_below(walk_view(walk@), number + 1) % u256_modulus(),
{
    let ghost views = walk_view(walk@);
    let mut td: U256 = U256::zero();
    let mut i: usize = 0;
    while i < walk.len()
        invariant
            i <= walk.len(),
            views == walk_view(walk@),
            td@ == difficulty_below(views.take(i as int), number + 1) % u256_modulus(),
        decreases walk.len() - i,
    {
        let header = walk[i].1;
        proof {
            let seen = views.take(i + 1);
            assert(seen.drop_last() =~= views.take(i as int));
            assert(seen.last().1 == header@);
        }
        if header.number <= number {
            proof {
                lemma_add_to_remainder(
                    difficulty_below(views.take(i as int), number + 1),
                    header@.difficulty,
                );
            }
            td = td.wrapping_add(header.difficulty);
        }
        i += 1;
    }
    assert(views.take(views.len() as int) =~= views);
    td
}

proof fn lemma_add_to_remainder(sum: nat, term: nat)
    ensures
        (sum % u256_modulus() + term) % u256_modulus() == (sum + term) % u256_modulus(),
{
    let modulus = u256_modulus() as int;
    vstd::arithmetic::div_mod::lemma_add_mod_noop(sum as int, term as int, modulus);
    vstd::arithmetic::div_mod::lemma_add_mod_noop(sum as int % modulus, term as int, modulus);
    vstd::arithmetic::div_mod::lemma_mod_twice(sum as int, modulus);
}

/// Copies the headers whose numbers lie in a range, by ascending number.
pub fn headers_range(walk: &[(B256, &Header)], range: &NumberRange) -> (headers: Vec<Header>)
    ensures
        is_sorted_selection(
            seq_view(headers@),
            headers_of(walk_view(walk@)),
            numbers_in_range(walk_view(walk@), *range),
        ),
{
    let ghost views = walk_view(walk@);
    let mut keys: Vec<Option<u64>> = Vec::new();
    let mut i: usize = 0;
    while i < walk.len()
        invariant
            i <= walk.len(),
            views == walk_view(walk@),
            keys@ == numbers_in_range(views, *range).take(i as int),
        decreases walk.len() - i,
    {
        let number: u64 = walk[i].1.number;
        if range.contains(number) {
            keys.push(Some(number));
        } else {
            keys.push(None);
        }
        i += 1;
        assert(keys@ =~= numbers_in_range(views, *range).take(i as int));
    }
    assert(keys@ =~= numbers_in_range(views, *range));
    let order = stable_order(&keys);
    let mut headers: Vec<Header> = Vec::new();
    let mut k: usize = 0;
    while k < order.len()
        invariant
            k <= order.len(),
            views == walk_view(walk@),
            forall|l: int| 0 <= l < order.len() ==> (#[trigger] order[l]) < walk.len(),
            seq_view(headers@) == pick(headers_of(views), order@).take(k as int),
        decreases order.len() - k,
    {
        let ghost before = headers@;
        headers.push(walk[order[k]].1.clone());
        assert(headers_of(views)[order[k as int] as int] == headers@.last()@);
        k += 1;
        assert(seq_view(headers@) =~= seq_view(before).push(headers@.last()@));
    }
    assert(seq_view(headers@) =~= pick(headers_of(views), order@));
    headers
}

/// Whether `kept` holds the headers, sealed, up to the first one that the predicate turns down.
pub open spec fn is_sealed_while<F: FnMut(&SealedHeader) -> bool>(
    predicate: F,
    headers: Seq<HeaderView>,
    kept: Seq<SealedHeader>,
) -> bool {
    &&& kept.len() <= headers.len()
    &&& forall|i: int|
        0 <= i < kept.len() ==> (#[trigger] kept[i])@ == sealed(headers[i]) && call_ensures(
            predicate,
            (&kept[i],),
            true,
        )
    &&& kept.len() < headers.len() ==> exists|rejected: SealedHeader|
        #![trigger rejected@]
        rejected@ == sealed(headers[kept.len() as int]) && call_ensures(
            predicate,
            (&rejected,),
            false,
        )
}

/// A predicate on sealed headers, with an account of what it was asked. It can be asked through
/// [`HeaderPredicate::accepts`] only, so nothing is missing from the account.
pub struct HeaderPredicate<F> {
    predicate: F,
    asked: Ghost<Seq<(SealedHeaderView, bool)>>,
}

impl<F: FnMut(&SealedHeader) -> bool> HeaderPredicate<F> {
    /// The predicate itself.
    pub closed spec fn predicate(self) -> F {
        self.predicate
    }

    /// The headers that the predicate was asked about, each with its answer, in the order in which
    /// it was asked.
    pub closed spec fn asked(self) -> Seq<(SealedHeaderView, bool)> {
        self.asked@
    }

    /// Takes a predicate that has been asked nothing.
    pub fn new(predicate: F) -> (counted: HeaderPredicate<F>)
        ensures
            counted.predicate() == predicate,
            counted.asked() == Seq::<(SealedHeaderView, bool)>::empty(),
    {
        HeaderPredicate { predicate, asked: Ghost(Seq::empty()) }
    }

    /// Asks the predicate about a header.
    pub fn accepts(&mut self, header: &SealedHeader) -> (accepted: bool)
        requires
            call_requires(old(self).predicate(), (header,)),
        ensures
            call_ensures(old(self).predicate(), (header,), accepted),
            final(self).predicate() == old(self).predicate(),
            final(self).asked() == old(self).asked().push((header@, accepted)),
    {
        let accepted = (self.predicate)(header);
        self.asked = Ghost(self.asked@.push((header@, accepted)));
        accepted
    }
}

/// What a predicate is asked, with its answers, while headers are sealed up to the first one that
/// it turns down: about each header that is kept, in order and once, and then about the one that is
/// turned down.
pub open spec fn asked_while(headers: Seq<HeaderView>, kept: nat) -> Seq<(SealedHeaderView, bool)> {
    Seq::new(
        if kept < headers.len() {
            kept + 1
        } else {
            kept
        },
        |i: int| (sealed(headers[i]), i < kept),
    )
}

/// Seals headers in turn, up to the first one that the predicate turns down.
pub fn sealed_headers_while<F: FnMut(&SealedHeader) -> bool>(
    headers: Vec<Header>,
    predicate: &mut HeaderPredicate<F>,
) -> (kept: Vec<SealedHeader>)
    requires
        forall|header: SealedHeader| call_requires(old(predicate).predicate(), (&header,)),
    ensures
        is_sealed_while(old(predicate).predicate(), seq_view(headers@), kept@),
        forall|i: int|
            0 <= i < kept@.len() ==> (#[trigger] kept@[i]).header@ == headers@[i]@ && kept@[i].hash
                == header_hash(headers@[i]@),
        final(predicate).predicate() == old(predicate).predicate(),
        final(predicate).asked() == old(predicate).asked() + asked_while(
            seq_view(headers@),
            kept@.len(),
        ),
{
    let mut kept: Vec<SealedHeader> = Vec::new();
    let ghost all = headers@;
    let ghost views = seq_view(all);
    let ghost accepts = predicate.predicate();
    let ghost before = predicate.asked();
    for header in iter: headers
        invariant
            iter.seq() == all,
            views == seq_view(all),
            kept@.len() == iter.index(),
            accepts == old(predicate).predicate(),
            before == old(predicate).asked(),
            predicate.predicate() == accepts,
            forall|i: int|
                0 <= i < kept@.len() ==> (#[trigger] kept@[i]).header@ == all[i]@ && kept@[i].hash
                    == header_hash(all[i]@),
            forall|header: SealedHeader| call_requires(accepts, (&header,)),
            forall|i: int|
                0 <= i < kept@.len() ==> (#[trigger] kept@[i])@ == sealed(all[i]@) && call_ensures(
                    accepts,
                    (&kept@[i],),
                    true,
                ),
            predicate.asked() == before + asked_while(views, views.len()).take(iter.index()),
    {
        let sealed_header = SealedHeader::seal_slow(header);
        let accepted = predicate.accepts(&sealed_header);
        let ghost i = iter.index();
        if !accepted {
            assert(predicate.asked() =~= before + asked_while(views, kept@.len()));
            return kept;
        }
        kept.push(sealed_header);
        assert(predicate.asked() =~= before + asked_while(views, views.len()).take(i + 1));
    }
    assert(predicate.asked() =~= before + asked_while(views, kept@.len()));
    kept
}

/// Finds the greatest number of a header.
pub fn best_block_number(walk: &[(B256, &Header)]) -> (best: Option<BlockNumber>)
    ensures
        match best {
            Some(number) => is_best(walk_view(walk@), number),
            None => walk@.len() == 0,
        },
{
    let ghost views = walk_view(walk@);
    let mut best: Option<BlockNumber> = None;
    let mut i: usize = 0;
    while i < walk.len()
        invariant
            i <= walk.len(),
            views == walk_view(walk@),
            match best {
                Some(number) => {
                    &&& exists|j: int| 0 <= j < i && (#[trigger] views[j]).1.number == number
                    &&& forall|j: int| 0 <= j < i ==> (#[trigger] views[j]).1.number <= number
                },
                None => i == 0,
            },
        decreases walk.len() - i,
    {
        let number: u64 = walk[i].1.number;
        assert(views[i as int].1.number == number);
        best = match best {
            Some(greatest) => if number >= greatest {
                Some(number)
            } else {
                Some(greatest)
            },
            None => Some(number),
        };
        i += 1;
    }
    best
}

/// Names the first header with the given number; names the zero hash and number where none has.
pub fn chain_info(walk: &[(B256, &Header)], best_number: BlockNumber) -> (info: ChainInfo)
    ensures
        match first_match(walk_view(walk@), has_number(best_number)) {
            Some(entry) => info == (ChainInfo {
                best_hash: entry.0,
                best_number: entry.1.number,
            }),
            None => crate::primitives::is_zero_hash(info.best_hash) && info.best_number == 0,
        },
{
    let ghost views = walk_view(walk@);
    let ghost p = has_number(best_number);
    let mut i: usize = 0;
    while i < walk.len()
        invariant
            i <= walk.len(),
            views == walk_view(walk@),
            p == has_number(best_number),
            forall|j: int| 0 <= j < i ==> !p(#[trigger] views[j]),
        decreases walk.len() - i,
    {
        assert(views[i as int] == (walk[i as int].0, walk[i as int].1@));
        if walk[i].1.number == best_number {
            proof {
                lemma_is_first(views, p, i as int);
            }
            return ChainInfo { best_hash: walk[i].0, best_number: walk[i].1.number };
        }
        i += 1;
    }
    proof {
        lemma_none_matches(views, p);
    }
    ChainInfo { best_hash: zero_hash(), best_number: 0 }
}

/// The sum of the difficulties of all headers of a map with a number below `limit`.
pub open spec fn total_below(map: Map<B256, HeaderView>, limit: int) -> nat {
    difficulty_below(choose|walk: Seq<(B256, HeaderView)>| is_walk(walk, map), limit)
}

/// Taking an entry out of a walk takes its difficulty out of the sum.
proof fn lemma_difficulty_remove(walk: Seq<(B256, HeaderView)>, at: int, limit: int)
    requires
        0 <= at < walk.len(),
    ensures
        difficulty_below(walk, limit) == difficulty_below(walk.remove(at), limit) + (if limit
            > walk[at].1.number {
            walk[at].1.difficulty
        } else {
            0
        }),
    decreases walk.len(),
{
    let rest = walk.remove(at);
    if at == walk.len() - 1 {
        assert(rest =~= walk.drop_last());
    } else {
        lemma_difficulty_remove(walk.drop_last(), at, limit);
        assert(rest.drop_last() =~= walk.drop_last().remove(at));
        assert(rest.last() == walk.last());
    }
}

/// The sum of difficulties does not depend on the order in which the headers are walked.
pub proof fn lemma_difficulty_any_walk(
    left: Seq<(B256, HeaderView)>,
    right: Seq<(B256, HeaderView)>,
    map: Map<B256, HeaderView>,
    limit: int,
)
    requires
        is_walk(left, map),
        is_walk(right, map),
    ensures
        difficulty_below(left, limit) == difficulty_below(right, limit),
    decreases left.len(),
{
    if left.len() == 0 {
        if right.len() > 0 {
            assert(map.contains_key(right[0].0));
        }
    } else {
        let last = left.len() - 1;
        let key = left[last].0;
        assert(map.contains_key(key));
        let at = choose|i: int| 0 <= i < right.len() && (#[trigger] right[i]).0 == key;
        assert(map[right[at].0] == right[at].1);
        lemma_walk_remove(left, map, last);
        lemma_walk_remove(right, map, at);
        lemma_difficulty_remove(left, last, limit);
        lemma_difficulty_remove(right, at, limit);
        lemma_difficulty_any_walk(left.remove(last), right.remove(at), map.remove(key), limit);
    }
}

/// The sum over any walk of a map is the sum over the map.
pub proof fn lemma_total_below(
    walk: Seq<(B256, HeaderView)>,
    map: Map<B256, HeaderView>,
    limit: int,
)
    requires
        is_walk(walk, map),
    ensures
        difficulty_below(walk, limit) == total_below(map, limit),
{
    let chosen = choose|walk: Seq<(B256, HeaderView)>| is_walk(walk, map);
    lemma_difficulty_any_walk(walk, chosen, map, limit);
}

/// Raising the limit past a number that no header has does not change the sum.
proof fn lemma_difficulty_skips(walk: Seq<(B256, HeaderView)>, number: BlockNumber)
    requires
        forall|i: int| 0 <= i < walk.len() ==> (#[trigger] walk[i]).1.number != number,
    ensures
        difficulty_below(walk, number + 1) == difficulty_below(walk, number as int),
    decreases walk.len(),
{
    if walk.len() > 0 {
        assert(walk[walk.len() - 1].1.number != number);
        let rest = walk.drop_last();
        assert forall|i: int| 0 <= i < rest.len() implies (#[trigger] rest[i]).1.number
            != number by {
            assert(walk[i].1.number != number);
        }
        lemma_difficulty_skips(rest, number);
    }
}

/// Where a header is the only one with its number, the total difficulty up to its number is its
/// own difficulty and that of all headers below it.
pub proof fn lemma_total_difficulty_at_number(
    walk: Seq<(B256, HeaderView)>,
    map: Map<B256, HeaderView>,
    hash: B256,
)
    requires
        is_walk(walk, map),
        map.contains_key(hash),
        forall|other: B256| #[trigger]
            map.contains_key(other) && other != hash ==> map[other].number != map[hash].number,
    ensures
        total_below(map, map[hash].number + 1) == map[hash].difficulty + total_below(
            map,
            map[hash].number as int,
        ),
{
    let number = map[hash].number;
    lemma_total_below(walk, map, number + 1);
    lemma_total_below(walk, map, number as int);
    let at = choose|i: int| 0 <= i < walk.len() && (#[trigger] walk[i]).0 == hash;
    let rest = walk.remove(at);
    assert(map[walk[at].0] == walk[at].1);
    lemma_walk_remove(walk, map, at);
    assert forall|i: int| 0 <= i < rest.len() implies (#[trigger] rest[i]).1.number != number by {
        assert(map.remove(hash).contains_key(rest[i].0));
        assert(map.contains_key(rest[i].0));
    }
    lemma_difficulty_skips(rest, number);
    lemma_difficulty_remove(walk, at, number + 1);
    lemma_difficulty_remove(walk, at, number as int);
}

/// Raising the limit does not lower the sum.
proof fn lemma_difficulty_monotonic(walk: Seq<(B256, HeaderView)>, low: int, high: int)
    requires
        low <= high,
    ensures
        difficulty_below(walk, low) <= difficulty_below(walk, high),
    decreases walk.len(),
{
    if walk.len() > 0 {
        lemma_difficulty_monotonic(walk.drop_last(), low, high);
    }
}

/// The sum below a number covers a header with a smaller number and all that is below it.
pub proof fn lemma_difficulty_covers(
    walk: Seq<(B256, HeaderView)>,
    map: Map<B256, HeaderView>,
    hash: B256,
    limit: int,
)
    requires
        is_walk(walk, map),
        map.contains_key(hash),
        map[hash].number < limit,
    ensures
        map[hash].difficulty + difficulty_below(walk, map[hash].number as int) <= difficulty_below(
            walk,
            limit,
        ),
{
    let at = choose|i: int| 0 <= i < walk.len() && (#[trigger] walk[i]).0 == hash;
    assert(map[walk[at].0] == walk[at].1);
    lemma_difficulty_remove(walk, at, map[hash].number as int);
    lemma_difficulty_remove(walk, at, limit);
    lemma_difficulty_monotonic(walk.remove(at), map[hash].number as int, limit);
}

/// Whether `found` is a header of the map with this number, or `None` where the map has none.
pub open spec fn is_numbered_header(
    map: Map<B256, HeaderView>,
    number: BlockNumber,
    found: Option<HeaderView>,
) -> bool {
    match found {
        Some(header) => exists|hash: B256| #[trigger]
            map.contains_key(hash) && map[hash] == header && header.number == number,
        None => forall|hash: B256| #[trigger] map.contains_key(hash) ==> map[hash].number != number,
    }
}

/// Whether `number` is the greatest number of a header of the map.
pub open spec fn is_best_number(map: Map<B256, HeaderView>, number: BlockNumber) -> bool {
    &&& exists|hash: B256| #[trigger] map.contains_key(hash) && map[hash].number == number
    &&& forall|hash: B256| #[trigger] map.contains_key(hash) ==> map[hash].number <= number
}

/// The first header with a number, on any walk, is a header of the map with this number.
pub proof fn lemma_first_numbered(
    walk: Seq<(B256, HeaderView)>,
    map: Map<B256, HeaderView>,
    number: BlockNumber,
)
    requires
        is_walk(walk, map),
    ensures
        match first_match(walk, has_number(number)) {
            Some(entry) => {
                &&& map.contains_key(entry.0)
                &&& map[entry.0] == entry.1
                &&& entry.1.number == number
                &&& is_numbered_header(map, number, Some(entry.1))
            },
            None => is_numbered_header(map, number, None),
        },
{
    let p = has_number(number);
    lemma_first_position(walk, p);
    match first_position(walk, p) {
        Some(i) => {
            assert(map.contains_key(walk[i].0));
        },
        None => {
            assert forall|hash: B256| #[trigger] map.contains_key(hash) implies map[hash].number
                != number by {
                let i = choose|i: int| 0 <= i < walk.len() && (#[trigger] walk[i]).0 == hash;
                assert(!p(walk[i]));
            }
        },
    }
}

/// The greatest number on any walk is the greatest number of the map.
pub proof fn lemma_best_of_walk(
    walk: Seq<(B256, HeaderView)>,
    map: Map<B256, HeaderView>,
    number: BlockNumber,
)
    requires
        is_walk(walk, map),
        is_best(walk, number),
    ensures
        is_best_number(map, number),
{
    let i = choose|i: int| 0 <= i < walk.len() && (#[trigger] walk[i]).1.number == number;
    assert(map.contains_key(walk[i].0));
    assert forall|hash: B256| #[trigger] map.contains_key(hash) implies map[hash].number
        <= number by {
        let j = choose|j: int| 0 <= j < walk.len() && (#[trigger] walk[j]).0 == hash;
        assert(map[walk[j].0] == walk[j].1);
    }
}

} // verus!
