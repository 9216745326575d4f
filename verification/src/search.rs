//! Searching and ordering sequences.

use vstd::prelude::*;

verus! {

/// The position of the first item that satisfies `p`, or `None` where no item does.
pub open spec fn first_position<A>(items: Seq<A>, p: spec_fn(A) -> bool) -> Option<int>
    decreases items.len(),
{
    if items.len() == 0 {
        None
    } else {
        match first_position(items.drop_last(), p) {
            Some(i) => Some(i),
            None => if p(items.last()) {
                Some(items.len() - 1)
            } else {
                None
            },
        }
    }
}

/// The first item that satisfies `p`, or `None` where no item does.
pub open spec fn first_match<A>(items: Seq<A>, p: spec_fn(A) -> bool) -> Option<A> {
    match first_position(items, p) {
        Some(i) => Some(items[i]),
        None => None,
    }
}

/// Whether the item at `i` is the first that satisfies `p`.
pub open spec fn is_first<A>(items: Seq<A>, p: spec_fn(A) -> bool, i: int) -> bool {
    &&& 0 <= i < items.len()
    &&& p(items[i])
    &&& forall|j: int| 0 <= j < i ==> !p(#[trigger] items[j])
}

/// What [`first_position`] finds is the first item that satisfies `p`; where it finds nothing,
/// no item does.
pub proof fn lemma_first_position<A>(items: Seq<A>, p: spec_fn(A) -> bool)
    ensures
        match first_position(items, p) {
            Some(i) => is_first(items, p, i),
            None => forall|j: int| 0 <= j < items.len() ==> !p(#[trigger] items[j]),
        },
    decreases items.len(),
{
    if items.len() > 0 {
        let rest = items.drop_last();
        lemma_first_position(rest, p);
        assert forall|j: int| 0 <= j < items.len() - 1 implies items[j] == rest[j] by {}
        match first_position(rest, p) {
            Some(i) => {
                assert forall|j: int| 0 <= j < i implies !p(#[trigger] items[j]) by {
                    assert(!p(rest[j]));
                }
                assert(p(rest[i]));
            },
            None => {
                assert forall|j: int| 0 <= j < items.len() - 1 implies !p(#[trigger] items[j]) by {
                    assert(!p(rest[j]));
                }
            },
        }
    }
}

/// The first item that satisfies `p` is what [`first_position`] finds.
pub proof fn lemma_is_first<A>(items: Seq<A>, p: spec_fn(A) -> bool, i: int)
    requires
        is_first(items, p, i),
    ensures
        first_position(items, p) == Some(i),
{
    lemma_first_position(items, p);
    match first_position(items, p) {
        Some(j) => {
            if i < j {
                assert(!p(items[i]));
            } else if j < i {
                assert(!p(items[j]));
            }
        },
        None => {
            assert(!p(items[i]));
        },
    }
}

/// Nothing is found where no item satisfies `p`.
pub proof fn lemma_none_matches<A>(items: Seq<A>, p: spec_fn(A) -> bool)
    requires
        forall|j: int| 0 <= j < items.len() ==> !p(#[trigger] items[j]),
    ensures
        first_position(items, p) is None,
{
    lemma_first_position(items, p);
}

/// Whether `order` lists the positions of all keys that are present, by ascending key, the
/// positions of one key by ascending position.
pub open spec fn is_stable_order(order: Seq<usize>, keys: Seq<Option<u64>>) -> bool {
    &&& forall|k: int|
        0 <= k < order.len() ==> (#[trigger] order[k]) < keys.len() && keys[order[k] as int] is Some
    &&& forall|i: int|
        0 <= i < keys.len() && (#[trigger] keys[i]) is Some ==> exists|k: int|
            0 <= k < order.len() && (#[trigger] order[k]) == i
    &&& forall|k: int, l: int|
        0 <= k < l < order.len() ==> comes_before(keys, #[trigger] order[k], #[trigger] order[l])
}

/// Whether position `i` has a smaller key than position `j`, or an equal key and is smaller.
pub open spec fn comes_before(keys: Seq<Option<u64>>, i: usize, j: usize) -> bool {
    let left = keys[i as int]->0;
    let right = keys[j as int]->0;
    left < right || (left == right && i < j)
}

/// Sorts the positions of the present keys by key, keeping positions of one key in order.
pub fn stable_order(keys: &Vec<Option<u64>>) -> (order: Vec<usize>)
    ensures
        is_stable_order(order@, keys@),
{
    let mut order: Vec<usize> = Vec::new();
    let mut i: usize = 0;
    while i < keys.len()
        invariant
            i <= keys.len(),
            is_stable_order(order@, keys@.take(i as int)),
        decreases keys.len() - i,
    {
        let ghost before = order@;
        let ghost seen = keys@.take(i as int);
        let ghost next = keys@.take(i + 1);
        assert(forall|j: int| 0 <= j < i ==> seen[j] == next[j]);
        if let Some(key) = keys[i] {
            let mut at: usize = order.len();
            while at > 0 && keys[order[at - 1]].is_some() && keys[order[at - 1]].unwrap() > key
                invariant
                    at <= order.len(),
                    order@ == before,
                    i < keys.len(),
                    keys[i as int] == Some(key),
                    seen == keys@.take(i as int),
                    is_stable_order(before, seen),
                    forall|k: int|
                        at <= k < before.len() ==> seen[(#[trigger] before[k]) as int]->0 > key,
                    forall|k: int| 0 <= k < before.len() ==> (#[trigger] before[k]) < keys.len(),
                decreases at,
            {
                at -= 1;
            }
            assert(next =~= seen.push(Some(key)));
            order.insert(at, i);
            proof {
                lemma_insert_keeps_order(before, seen, next, at as int, i, key);
            }
        } else {
            proof {
                assert forall|j: int|
                    0 <= j < next.len() && (#[trigger] next[j]) is Some implies exists|k: int|
                    0 <= k < before.len() && (#[trigger] before[k]) == j by {
                    assert(seen[j] is Some);
                }
                assert forall|k: int, l: int| 0 <= k < l < before.len() implies comes_before(
                    next,
                    #[trigger] before[k],
                    #[trigger] before[l],
                ) by {
                    assert(comes_before(seen, before[k], before[l]));
                }
            }
        }
        i += 1;
    }
    assert(keys@.take(keys@.len() as int) =~= keys@);
    order
}

/// Placing the newest position behind every position whose key is no greater keeps an order
/// stable.
proof fn lemma_insert_keeps_order(
    before: Seq<usize>,
    seen: Seq<Option<u64>>,
    next: Seq<Option<u64>>,
    at: int,
    i: usize,
    key: u64,
)
    requires
        is_stable_order(before, seen),
        seen.len() == i,
        next == seen.push(Some(key)),
        0 <= at <= before.len(),
        forall|k: int| at <= k < before.len() ==> seen[(#[trigger] before[k]) as int]->0 > key,
        at > 0 ==> seen[before[at - 1] as int]->0 <= key,
    ensures
        is_stable_order(before.insert(at, i), next),
{
    let after = before.insert(at, i);
    assert forall|k: int| 0 <= k < after.len() implies (#[trigger] after[k]) < next.len()
        && next[after[k] as int] is Some by {
        if k < at {
            assert(after[k] == before[k]);
        } else if k > at {
            assert(after[k] == before[k - 1]);
        }
    }
    assert forall|j: int| 0 <= j < next.len() && (#[trigger] next[j]) is Some implies exists|k: int|
        0 <= k < after.len() && (#[trigger] after[k]) == j by {
        if j == i {
            assert(after[at] == i);
        } else {
            assert(seen[j] is Some);
            let k = choose|k: int| 0 <= k < before.len() && (#[trigger] before[k]) == j;
            if k < at {
                assert(after[k] == j);
            } else {
                assert(after[k + 1] == j);
            }
        }
    }
    assert forall|k: int| 0 <= k < at implies seen[(#[trigger] before[k]) as int]->0 <= key by {
        if k < at - 1 {
            assert(comes_before(seen, before[k], before[at - 1]));
        }
    }
    assert forall|k: int, l: int| 0 <= k < l < after.len() implies comes_before(
        next,
        #[trigger] after[k],
        #[trigger] after[l],
    ) by {
        if l < at {
            assert(comes_before(seen, before[k], before[l]));
        } else if k < at && l == at {
            assert(after[k] == before[k]);
        } else if k < at && l > at {
            assert(after[l] == before[l - 1]);
            assert(comes_before(seen, before[k], before[l - 1]));
        } else if k == at {
            assert(after[l] == before[l - 1]);
        } else {
            assert(comes_before(seen, before[k - 1], before[l - 1]));
        }
    }
}

/// The items at the listed positions.
pub open spec fn pick<A>(items: Seq<A>, order: Seq<usize>) -> Seq<A> {
    Seq::new(order.len(), |k: int| items[order[k] as int])
}

/// Whether `picked` holds the items that have a key, by ascending key, the items of one key in
/// the order in which they stand.
pub open spec fn is_sorted_selection<A>(
    picked: Seq<A>,
    items: Seq<A>,
    keys: Seq<Option<u64>>,
) -> bool {
    exists|order: Seq<usize>| #[trigger]
        is_stable_order(order, keys) && picked == pick(items, order)
}

/// Two sequences with the same items, each ascending by rank, are equal.
pub proof fn lemma_ascending_unique<A>(left: Seq<A>, right: Seq<A>, rank: spec_fn(A) -> int)
    requires
        forall|i: int, j: int|
            0 <= i < j < left.len() ==> rank(#[trigger] left[i]) < rank(#[trigger] left[j]),
        forall|i: int, j: int|
            0 <= i < j < right.len() ==> rank(#[trigger] right[i]) < rank(#[trigger] right[j]),
        forall|i: int| 0 <= i < left.len() ==> right.contains(#[trigger] left[i]),
        forall|i: int| 0 <= i < right.len() ==> left.contains(#[trigger] right[i]),
    ensures
        left == right,
{
    lemma_ascending_prefix(left, right, rank, left.len());
    lemma_ascending_prefix(right, left, rank, right.len());
    assert(left =~= right);
}

proof fn lemma_ascending_prefix<A>(
    left: Seq<A>,
    right: Seq<A>,
    rank: spec_fn(A) -> int,
    k: nat,
)
    requires
        forall|i: int, j: int|
            0 <= i < j < left.len() ==> rank(#[trigger] left[i]) < rank(#[trigger] left[j]),
        forall|i: int, j: int|
            0 <= i < j < right.len() ==> rank(#[trigger] right[i]) < rank(#[trigger] right[j]),
        forall|i: int| 0 <= i < left.len() ==> right.contains(#[trigger] left[i]),
        forall|i: int| 0 <= i < right.len() ==> left.contains(#[trigger] right[i]),
        k <= left.len(),
    ensures
        k <= right.len(),
        forall|i: int| 0 <= i < k ==> #[trigger] left[i] == right[i],
    decreases k,
{
    if k > 0 {
        let last = k - 1;
        lemma_ascending_prefix(left, right, rank, last as nat);
        assert(right.contains(left[last]));
        let l = choose|l: int| 0 <= l < right.len() && right[l] == left[last];
        if l < last {
            assert(left[l] == right[l]);
            assert(rank(left[l]) < rank(left[last]));
        }
        assert(left.contains(right[last]));
        let m = choose|m: int| 0 <= m < left.len() && left[m] == right[last];
        if m < last {
            assert(left[m] == right[m]);
            assert(rank(right[m]) < rank(right[last]));
        }
        if l > last {
            assert(rank(right[last]) < rank(right[l]));
            if m > last {
                assert(rank(left[last]) < rank(left[m]));
            }
        }
    }
}

/// A list of keys has one stable order only.
pub proof fn lemma_stable_order_unique(left: Seq<usize>, right: Seq<usize>, keys: Seq<Option<u64>>)
    requires
        is_stable_order(left, keys),
        is_stable_order(right, keys),
    ensures
        left == right,
{
    let rank = |i: usize| keys[i as int]->0 * 0x1_0000_0000_0000_0000 + i;
    assert forall|i: int, j: int| 0 <= i < j < left.len() implies rank(#[trigger] left[i]) < rank(
        #[trigger] left[j],
    ) by {
        assert(comes_before(keys, left[i], left[j]));
    }
    assert forall|i: int, j: int| 0 <= i < j < right.len() implies rank(#[trigger] right[i]) < rank(
        #[trigger] right[j],
    ) by {
        assert(comes_before(keys, right[i], right[j]));
    }
    assert forall|i: int| 0 <= i < left.len() implies right.contains(#[trigger] left[i]) by {
        assert(keys[left[i] as int] is Some);
        let k = choose|k: int| 0 <= k < right.len() && (#[trigger] right[k]) == left[i] as int;
        assert(right[k] == left[i]);
    }
    assert forall|i: int| 0 <= i < right.len() implies left.contains(#[trigger] right[i]) by {
        assert(keys[right[i] as int] is Some);
        let k = choose|k: int| 0 <= k < left.len() && (#[trigger] left[k]) == right[i] as int;
        assert(left[k] == right[i]);
    }
    lemma_ascending_unique(left, right, rank);
}

} // verus!
