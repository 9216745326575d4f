//! Hash maps keyed by fixed-size words, and the walks over them.
//!
//! A hash map is walked in no particular order, so whatever visits its entries is stated for
//! every order: a *walk* lists each entry of a map exactly once.

use alloy_primitives::map::{DefaultHashBuilder, HashMap};
use vstd::prelude::*;

verus! {

/// The hasher that `alloy_primitives::map::HashMap` builds its hashes with.
#[verifier::external_type_specification]
#[verifier::external_body]
pub struct ExDefaultHashBuilder(DefaultHashBuilder);

/// Whether `walk` lists every entry of `map` exactly once.
pub open spec fn is_walk<K, A>(walk: Seq<(K, A)>, map: Map<K, A>) -> bool {
    &&& forall|i: int|
        0 <= i < walk.len() ==> map.contains_key((#[trigger] walk[i]).0) && map[walk[i].0]
            == walk[i].1
    &&& forall|k: K| #[trigger]
        map.contains_key(k) ==> exists|i: int| 0 <= i < walk.len() && (#[trigger] walk[i]).0 == k
    &&& forall|i: int, j: int|
        0 <= i < j < walk.len() ==> (#[trigger] walk[i]).0 != (#[trigger] walk[j]).0
}

/// A map with each value replaced by its view.
pub open spec fn map_view<K, V: View>(map: Map<K, V>) -> Map<K, V::V> {
    map.map_values(|v: V| v@)
}

/// A walk with each borrowed value replaced by its view.
pub open spec fn walk_view<const N: usize, V: View>(walk: Seq<([u8; N], &V)>) -> Seq<
    ([u8; N], V::V),
> {
    walk.map_values(|entry: ([u8; N], &V)| (entry.0, entry.1@))
}

/// A walk with each borrowed value replaced by the value itself.
pub open spec fn walk_values<const N: usize, V>(walk: Seq<([u8; N], &V)>) -> Seq<([u8; N], V)> {
    walk.map_values(|entry: ([u8; N], &V)| (entry.0, *entry.1))
}

/// Calls `HashMap::default`, which makes an empty map.
#[verifier::external_body]
pub(crate) fn map_default<const N: usize, V>() -> (map: HashMap<[u8; N], V>)
    ensures
        map@ == (Map::<[u8; N], V>::empty()),
{
    HashMap::default()
}

/// Calls `HashMap::insert`, which maps the key to the value, in place of any earlier value.
#[verifier::external_body]
pub(crate) fn map_insert<const N: usize, V>(map: &mut HashMap<[u8; N], V>, key: [u8; N], value: V)
    ensures
        final(map)@ == old(map)@.insert(key, value),
{
    map.insert(key, value);
}

/// Calls `HashMap::get`, which borrows the value of the key where the map has one.
#[verifier::external_body]
pub(crate) fn map_get<'a, const N: usize, V>(
    map: &'a HashMap<[u8; N], V>,
    key: &[u8; N],
) -> (value: Option<&'a V>)
    ensures
        value == (if map@.contains_key(*key) {
            Some(&map@[*key])
        } else {
            None
        }),
{
    map.get(key)
}

/// Calls `HashMap::iter`, which visits every entry once, in an order that is left open.
#[verifier::external_body]
fn map_iter<'a, const N: usize, V>(map: &'a HashMap<[u8; N], V>) -> (walk: Vec<([u8; N], &'a V)>)
    ensures
        is_walk(walk_values(walk@), map@),
{
    map.iter().map(|(key, value)| (*key, value)).collect()
}

/// Walks a map.
pub(crate) fn entries<'a, const N: usize, V: View>(map: &'a HashMap<[u8; N], V>) -> (walk: Vec<
    ([u8; N], &'a V),
>)
    ensures
        is_walk(walk_view(walk@), map_view(map@)),
{
    let walk = map_iter(map);
    proof {
        lemma_walk_view(walk@, map@);
    }
    walk
}

proof fn lemma_walk_view<const N: usize, V: View>(
    walk: Seq<([u8; N], &V)>,
    map: Map<[u8; N], V>,
)
    requires
        is_walk(walk_values(walk), map),
    ensures
        is_walk(walk_view(walk), map_view(map)),
{
    let values = walk_values(walk);
    let views = walk_view(walk);
    assert forall|i: int| 0 <= i < views.len() implies map_view(map).contains_key(
        (#[trigger] views[i]).0,
    ) && map_view(map)[views[i].0] == views[i].1 by {
        assert(map.contains_key(values[i].0));
    }
    assert forall|k: [u8; N]| #[trigger] map_view(map).contains_key(k) implies exists|i: int|
        0 <= i < views.len() && (#[trigger] views[i]).0 == k by {
        assert(map.contains_key(k));
        let i = choose|i: int| 0 <= i < values.len() && (#[trigger] values[i]).0 == k;
        assert(views[i].0 == k);
    }
    assert forall|i: int, j: int| 0 <= i < j < views.len() implies (#[trigger] views[i]).0 != (
    #[trigger] views[j]).0 by {
        assert(values[i].0 != values[j].0);
    }
}

/// A map after each entry was inserted in turn, later entries in place of earlier ones.
pub open spec fn insert_all<K, A>(map: Map<K, A>, entries: Seq<(K, A)>) -> Map<K, A>
    decreases entries.len(),
{
    if entries.len() == 0 {
        map
    } else {
        insert_all(map, entries.drop_last()).insert(entries.last().0, entries.last().1)
    }
}

/// A key that no entry has keeps its value; a key that an entry has gets the value of the last
/// such entry.
pub proof fn lemma_insert_all<K, A>(map: Map<K, A>, entries: Seq<(K, A)>, key: K)
    ensures
        (forall|i: int| 0 <= i < entries.len() ==> (#[trigger] entries[i]).0 != key) ==> {
            &&& insert_all(map, entries).contains_key(key) == map.contains_key(key)
            &&& map.contains_key(key) ==> insert_all(map, entries)[key] == map[key]
        },
        forall|i: int|
            0 <= i < entries.len() && (#[trigger] entries[i]).0 == key && (forall|j: int|
                i < j < entries.len() ==> (#[trigger] entries[j]).0 != key) ==> {
                &&& insert_all(map, entries).contains_key(key)
                &&& insert_all(map, entries)[key] == entries[i].1
            },
    decreases entries.len(),
{
    if entries.len() > 0 {
        let earlier = entries.drop_last();
        lemma_insert_all(map, earlier, key);
        assert forall|i: int|
            0 <= i < entries.len() && (#[trigger] entries[i]).0 == key && (forall|j: int|
                i < j < entries.len() ==> (#[trigger] entries[j]).0 != key) implies insert_all(
            map,
            entries,
        ).contains_key(key) && insert_all(map, entries)[key] == entries[i].1 by {
            if i < entries.len() - 1 {
                assert(entries[entries.len() - 1].0 != key);
                assert(earlier[i].0 == key);
                assert forall|j: int| i < j < earlier.len() implies (#[trigger] earlier[j]).0
                    != key by {
                    assert(entries[j].0 != key);
                }
            }
        }
        if forall|i: int| 0 <= i < entries.len() ==> (#[trigger] entries[i]).0 != key {
            assert forall|i: int| 0 <= i < earlier.len() implies (#[trigger] earlier[i]).0
                != key by {
                assert(entries[i].0 != key);
            }
            assert(entries[entries.len() - 1].0 != key);
        }
    }
}

/// Entries with each value replaced by its view.
pub open spec fn entries_view<K, V: View>(entries: Seq<(K, V)>) -> Seq<(K, V::V)> {
    entries.map_values(|entry: (K, V)| (entry.0, entry.1@))
}

/// Inserting values and then viewing the map is inserting the views of the values.
pub proof fn lemma_insert_all_view<K, V: View>(map: Map<K, V>, entries: Seq<(K, V)>)
    ensures
        map_view(insert_all(map, entries)) == insert_all(map_view(map), entries_view(entries)),
    decreases entries.len(),
{
    if entries.len() > 0 {
        let earlier = entries.drop_last();
        lemma_insert_all_view(map, earlier);
        assert(entries_view(entries).drop_last() =~= entries_view(earlier));
        assert(map_view(insert_all(map, entries)) =~= map_view(insert_all(map, earlier)).insert(
            entries.last().0,
            entries.last().1@,
        ));
    }
}

/// Inserting the entries of a walk into an empty map gives the map that was walked.
pub proof fn lemma_walk_rebuilds<K, A>(walk: Seq<(K, A)>, map: Map<K, A>)
    requires
        is_walk(walk, map),
    ensures
        insert_all(Map::empty(), walk) == map,
{
    let rebuilt = insert_all(Map::<K, A>::empty(), walk);
    assert forall|key: K|
        #![trigger rebuilt.contains_key(key)]
        #![trigger map.contains_key(key)]
        rebuilt.contains_key(key) == map.contains_key(key) && (map.contains_key(key)
            ==> rebuilt[key] == map[key]) by {
        lemma_insert_all(Map::empty(), walk, key);
        if map.contains_key(key) {
            let i = choose|i: int| 0 <= i < walk.len() && (#[trigger] walk[i]).0 == key;
            assert forall|j: int| i < j < walk.len() implies (#[trigger] walk[j]).0 != key by {
                assert(walk[i].0 != walk[j].0);
            }
        }
    }
    assert(rebuilt.dom() =~= map.dom()) by {
        assert forall|key: K| rebuilt.dom().contains(key) == map.dom().contains(key) by {
            assert(rebuilt.contains_key(key) == map.contains_key(key));
        }
    }
    assert(rebuilt =~= map);
}

/// A walk without one of its entries is a walk of the map without that entry.
pub proof fn lemma_walk_remove<K, A>(walk: Seq<(K, A)>, map: Map<K, A>, at: int)
    requires
        is_walk(walk, map),
        0 <= at < walk.len(),
    ensures
        is_walk(walk.remove(at), map.remove(walk[at].0)),
{
    let rest = walk.remove(at);
    let key = walk[at].0;
    let smaller = map.remove(key);
    assert forall|i: int| 0 <= i < rest.len() implies smaller.contains_key((#[trigger] rest[i]).0)
        && smaller[rest[i].0] == rest[i].1 by {
        let from = if i < at {
            i
        } else {
            i + 1
        };
        assert(rest[i] == walk[from]);
        assert(map.contains_key(walk[from].0));
    }
    assert forall|k: K| #[trigger] smaller.contains_key(k) implies exists|i: int|
        0 <= i < rest.len() && (#[trigger] rest[i]).0 == k by {
        assert(map.contains_key(k));
        let from = choose|i: int| 0 <= i < walk.len() && (#[trigger] walk[i]).0 == k;
        let i = if from < at {
            from
        } else {
            from - 1
        };
        assert(rest[i] == walk[from]);
    }
    assert forall|i: int, j: int| 0 <= i < j < rest.len() implies (#[trigger] rest[i]).0 != (
    #[trigger] rest[j]).0 by {
        let from = if i < at {
            i
        } else {
            i + 1
        };
        let to = if j < at {
            j
        } else {
            j + 1
        };
        assert(rest[i] == walk[from] && rest[j] == walk[to]);
    }
}

} // verus!
