//! Queries for the transactions of a walk over the stored blocks.
//!
//! The transactions of a walk are numbered from zero, block by block in the order of the walk and
//! within a block in the order of its body.

use crate::block::{Block, BlockView};
use crate::primitives::{
    bytes_equal, opt_view, seq_view, Address, B256, BlockNumber, TxHash, TxNumber,
};
use crate::range::NumberRange;
use crate::search::{
    first_match, first_position, is_first, lemma_first_position, lemma_is_first, lemma_none_matches,
};
use crate::store::{is_walk, lemma_walk_remove, walk_view};
use crate::transaction::{SignedTransaction, SignerError, TransactionMeta};
use vstd::prelude::*;

verus! {

/// All transactions of a walk, in the order of their numbers.
pub open spec fn tx_list<V>(walk: Seq<(B256, BlockView<V>)>) -> Seq<V>
    decreases walk.len(),
{
    if walk.len() == 0 {
        Seq::empty()
    } else {
        tx_list(walk.drop_last()) + walk.last().1.transactions
    }
}

/// The number of the first transaction of the block at position `b` of a walk.
pub open spec fn first_number<V>(walk: Seq<(B256, BlockView<V>)>, b: int) -> int {
    tx_list(walk.take(b)).len() as int
}

/// Whether a transaction has this hash.
pub open spec fn has_hash<T: SignedTransaction>(hash: TxHash) -> spec_fn(T::V) -> bool {
    |tx: T::V| T::hash_of(tx) == hash
}

/// Whether a block holds a transaction that satisfies `p`.
pub open spec fn has_match<V>(p: spec_fn(V) -> bool) -> spec_fn((B256, BlockView<V>)) -> bool {
    |entry: (B256, BlockView<V>)| first_position(entry.1.transactions, p) is Some
}

/// The block, and the index in it, of the first transaction that satisfies `p`.
pub open spec fn location<V>(walk: Seq<(B256, BlockView<V>)>, p: spec_fn(V) -> bool) -> Option<
    (int, int),
> {
    match first_position(walk, has_match(p)) {
        Some(b) => Some((b, first_position(walk[b].1.transactions, p)->0)),
        None => None,
    }
}

/// The transaction at a position, or `None` past the end.
pub open spec fn nth<V>(items: Seq<V>, id: TxNumber) -> Option<V> {
    let position = id as usize;
    if position < items.len() {
        Some(items[position as int])
    } else {
        None
    }
}

/// Whether the block at position `b` of a walk holds the transaction with this number.
pub open spec fn holds_number<V>(walk: Seq<(B256, BlockView<V>)>, b: int, id: int) -> bool {
    &&& 0 <= b < walk.len()
    &&& first_number(walk, b) <= id < first_number(walk, b) + walk[b].1.transactions.len()
}

/// The items whose positions lie in a range, in order.
pub open spec fn items_in_range<V>(items: Seq<V>, range: NumberRange) -> Seq<V>
    decreases items.len(),
{
    if items.len() == 0 {
        Seq::empty()
    } else {
        let earlier = items_in_range(items.drop_last(), range);
        if range.holds((items.len() - 1) as u64) {
            earlier.push(items.last())
        } else {
            earlier
        }
    }
}

/// The signers of those transactions whose signer can be recovered, in order.
pub open spec fn known_signers<T: SignedTransaction>(items: Seq<T::V>) -> Seq<Address>
    decreases items.len(),
{
    if items.len() == 0 {
        Seq::empty()
    } else {
        let earlier = known_signers::<T>(items.drop_last());
        match T::signer_of(items.last()) {
            Some(signer) => earlier.push(signer),
            None => earlier,
        }
    }
}

/// The data on a transaction that stands at an index of a block.
pub open spec fn meta_of<V>(
    entry: (B256, BlockView<V>),
    hash: TxHash,
    index: int,
) -> TransactionMeta {
    TransactionMeta {
        tx_hash: hash,
        index: index as u64,
        block_hash: entry.0,
        block_number: entry.1.header.number,
        base_fee: entry.1.header.base_fee_per_gas,
        excess_blob_gas: entry.1.header.excess_blob_gas,
        timestamp: entry.1.header.timestamp,
    }
}

/// The transaction at an index of a block of a walk has the number at which its block starts,
/// plus the index.
pub proof fn lemma_tx_list_index<V>(walk: Seq<(B256, BlockView<V>)>, b: int, i: int)
    requires
        0 <= b < walk.len(),
        0 <= i < walk[b].1.transactions.len(),
    ensures
        0 <= first_number(walk, b) + i < tx_list(walk).len(),
        tx_list(walk)[first_number(walk, b) + i] == walk[b].1.transactions[i],
    decreases walk.len(),
{
    let rest = walk.drop_last();
    if b == walk.len() - 1 {
        assert(walk.take(b) =~= rest);
    } else {
        lemma_tx_list_index(rest, b, i);
        assert(walk.take(b) =~= rest.take(b));
    }
}

/// Blocks later in a walk start at higher numbers.
proof fn lemma_first_number_monotonic<V>(walk: Seq<(B256, BlockView<V>)>, b: int, c: int)
    requires
        0 <= b < c <= walk.len(),
    ensures
        first_number(walk, b) + walk[b].1.transactions.len() <= first_number(walk, c),
    decreases c - b,
{
    assert(walk.take(c).drop_last() =~= walk.take(c - 1));
    assert(walk.take(c).last() == walk[c - 1]);
    if b < c - 1 {
        lemma_first_number_monotonic(walk, b, c - 1);
    }
}

/// Every number belongs to a block.
pub proof fn lemma_number_has_block<V>(walk: Seq<(B256, BlockView<V>)>, id: int) -> (b: int)
    requires
        0 <= id < tx_list(walk).len(),
    ensures
        holds_number(walk, b, id),
        tx_list(walk)[id] == walk[b].1.transactions[id - first_number(walk, b)],
    decreases walk.len(),
{
    let rest = walk.drop_last();
    let last = walk.len() - 1;
    assert(walk.take(last) =~= rest);
    if id < tx_list(rest).len() {
        let b = lemma_number_has_block(rest, id);
        assert(walk.take(b) =~= rest.take(b));
        b
    } else {
        last
    }
}

/// A number belongs to one block only.
pub proof fn lemma_block_of_number_unique<V>(
    walk: Seq<(B256, BlockView<V>)>,
    b: int,
    c: int,
    id: int,
)
    requires
        holds_number(walk, b, id),
        holds_number(walk, c, id),
    ensures
        b == c,
{
    if b < c {
        lemma_first_number_monotonic(walk, b, c);
    } else if c < b {
        lemma_first_number_monotonic(walk, c, b);
    }
}

/// Searching block by block finds the first match among all transactions.
pub proof fn lemma_location<V>(walk: Seq<(B256, BlockView<V>)>, p: spec_fn(V) -> bool)
    ensures
        match location(walk, p) {
            Some((b, i)) => {
                &&& 0 <= b < walk.len()
                &&& 0 <= i < walk[b].1.transactions.len()
                &&& first_position(tx_list(walk), p) == Some(first_number(walk, b) + i)
                &&& tx_list(walk)[first_number(walk, b) + i] == walk[b].1.transactions[i]
            },
            None => first_position(tx_list(walk), p) is None,
        },
{
    let list = tx_list(walk);
    lemma_first_position(walk, has_match(p));
    match location(walk, p) {
        Some((b, i)) => {
            lemma_first_position(walk[b].1.transactions, p);
            lemma_tx_list_index(walk, b, i);
            let position = first_number(walk, b) + i;
            assert forall|j: int| 0 <= j < position implies !p(#[trigger] list[j]) by {
                let c = lemma_number_has_block(walk, j);
                let k = j - first_number(walk, c);
                if c > b {
                    lemma_first_number_monotonic(walk, b, c);
                } else if c < b {
                    assert(!has_match(p)(walk[c]));
                    lemma_first_position(walk[c].1.transactions, p);
                    assert(!p(walk[c].1.transactions[k]));
                } else {
                    assert(!p(walk[b].1.transactions[k]));
                }
            }
            assert(p(walk[b].1.transactions[i]));
            assert(is_first(list, p, position));
            lemma_is_first(list, p, position);
        },
        None => {
            assert forall|j: int| 0 <= j < list.len() implies !p(#[trigger] list[j]) by {
                let c = lemma_number_has_block(walk, j);
                let k = j - first_number(walk, c);
                assert(!has_match(p)(walk[c]));
                lemma_first_position(walk[c].1.transactions, p);
                assert(!p(walk[c].1.transactions[k]));
            }
            lemma_none_matches(list, p);
        },
    }
}

/// Lists all transactions of a walk.
fn all_transactions<'a, T: SignedTransaction>(walk: &[(B256, &'a Block<T>)]) -> (list: Vec<&'a T>)
    ensures
        seq_view(list@) == tx_list(walk_view(walk@)),
{
    let ghost views = walk_view(walk@);
    let mut list: Vec<&'a T> = Vec::new();
    let mut b: usize = 0;
    while b < walk.len()
        invariant
            b <= walk.len(),
            views == walk_view(walk@),
            seq_view(list@) == tx_list(views.take(b as int)),
        decreases walk.len() - b,
    {
        let block = walk[b].1;
        let ghost before = list@;
        let mut i: usize = 0;
        while i < block.body.transactions.len()
            invariant
                i <= block.body.transactions.len(),
                seq_view(list@) == seq_view(before) + seq_view(block.body.transactions@).take(
                    i as int,
                ),
            decreases block.body.transactions.len() - i,
        {
            let ghost pushed = list@;
            list.push(&block.body.transactions[i]);
            i += 1;
            assert(seq_view(list@) =~= seq_view(pushed).push(list@.last()@));
        }
        b += 1;
        proof {
            let seen = views.take(b as int);
            assert(seen.drop_last() =~= views.take(b - 1));
            assert(seen.last() == views[b - 1]);
            assert(seq_view(block.body.transactions@).take(i as int) =~= views[b
                - 1].1.transactions);
        }
    }
    assert(views.take(views.len() as int) =~= views);
    list
}

/// Finds the number of the first transaction with this hash.
pub fn transaction_id<T: SignedTransaction>(walk: &[(B256, &Block<T>)], tx_hash: &TxHash) -> (id:
    Option<TxNumber>)
    ensures
        match first_position(tx_list(walk_view(walk@)), has_hash::<T>(*tx_hash)) {
            Some(position) => id is Some && id->0 == position,
            None => id is None,
        },
{
    let list = all_transactions(walk);
    let ghost views = tx_list(walk_view(walk@));
    let ghost p = has_hash::<T>(*tx_hash);
    let mut i: usize = 0;
    while i < list.len()
        invariant
            i <= list.len(),
            views == tx_list(walk_view(walk@)),
            seq_view(list@) == views,
            p == has_hash::<T>(*tx_hash),
            forall|j: int| 0 <= j < i ==> !p(#[trigger] views[j]),
        decreases list.len() - i,
    {
        assert(views[i as int] == list[i as int]@);
        if bytes_equal(list[i].tx_hash(), tx_hash) {
            proof {
                lemma_is_first(views, p, i as int);
            }
            return Some(i as u64);
        }
        i += 1;
    }
    proof {
        lemma_none_matches(views, p);
    }
    None
}

/// Copies the transaction with this number.
pub fn transaction_by_id<T: SignedTransaction>(walk: &[(B256, &Block<T>)], id: TxNumber) -> (tx:
    Option<T>)
    ensures
        opt_view(tx) == nth(tx_list(walk_view(walk@)), id),
{
    let list = all_transactions(walk);
    let position: usize = id as usize;
    if position < list.len() {
        assert(seq_view(list@)[position as int] == list[position as int]@);
        Some(list[position].duplicate())
    } else {
        None
    }
}

/// Finds the first transaction of a list with this hash.
fn index_in_block<T: SignedTransaction>(transactions: &Vec<T>, hash: &TxHash) -> (index: Option<
    usize,
>)
    ensures
        match first_position(seq_view(transactions@), has_hash::<T>(*hash)) {
            Some(i) => index is Some && index->0 == i,
            None => index is None,
        },
{
    let ghost views = seq_view(transactions@);
    let ghost p = has_hash::<T>(*hash);
    let mut i: usize = 0;
    while i < transactions.len()
        invariant
            i <= transactions.len(),
            views == seq_view(transactions@),
            p == has_hash::<T>(*hash),
            forall|j: int| 0 <= j < i ==> !p(#[trigger] views[j]),
        decreases transactions.len() - i,
    {
        assert(views[i as int] == transactions[i as int]@);
        if bytes_equal(transactions[i].tx_hash(), hash) {
            proof {
                lemma_is_first(views, p, i as int);
            }
            return Some(i);
        }
        i += 1;
    }
    proof {
        lemma_none_matches(views, p);
    }
    None
}

/// Finds the block, and the index in it, of the first transaction with this hash.
fn locate<T: SignedTransaction>(walk: &[(B256, &Block<T>)], hash: &TxHash) -> (found: Option<
    (usize, usize),
>)
    ensures
        match (location(walk_view(walk@), has_hash::<T>(*hash)), found) {
            (Some((b, i)), Some((block, index))) => block == b && index == i,
            (None, None) => true,
            _ => false,
        },
{
    let ghost views = walk_view(walk@);
    let ghost p = has_match(has_hash::<T>(*hash));
    let mut b: usize = 0;
    while b < walk.len()
        invariant
            b <= walk.len(),
            views == walk_view(walk@),
            p == has_match(has_hash::<T>(*hash)),
            forall|j: int| 0 <= j < b ==> !p(#[trigger] views[j]),
        decreases walk.len() - b,
    {
        assert(views[b as int].1 == walk[b as int].1@);
        if let Some(i) = index_in_block(&walk[b].1.body.transactions, hash) {
            proof {
                lemma_is_first(views, p, b as int);
            }
            return Some((b, i));
        }
        b += 1;
    }
    proof {
        lemma_none_matches(views, p);
    }
    None
}

/// Copies the first transaction with this hash.
pub fn transaction_by_hash<T: SignedTransaction>(walk: &[(B256, &Block<T>)], hash: &TxHash) -> (tx:
    Option<T>)
    ensures
        opt_view(tx) == first_match(tx_list(walk_view(walk@)), has_hash::<T>(*hash)),
{
    proof {
        lemma_location(walk_view(walk@), has_hash::<T>(*hash));
    }
    match locate(walk, hash) {
        Some((b, i)) => Some(walk[b].1.body.transactions[i].duplicate()),
        None => None,
    }
}

/// Copies the first transaction with this hash, and says where it stands.
pub fn transaction_by_hash_with_meta<T: SignedTransaction>(
    walk: &[(B256, &Block<T>)],
    hash: TxHash,
) -> (found: Option<(T, TransactionMeta)>)
    ensures
        match (location(walk_view(walk@), has_hash::<T>(hash)), found) {
            (Some((b, i)), Some((tx, meta))) => {
                &&& tx@ == walk_view(walk@)[b].1.transactions[i]
                &&& meta == meta_of(walk_view(walk@)[b], hash, i)
                &&& meta.tx_hash == hash
                &&& meta.index == i
                &&& meta.block_hash == walk@[b].0
                &&& meta.block_number == walk@[b].1.header.number
                &&& meta.base_fee == walk@[b].1.header.base_fee_per_gas
                &&& meta.excess_blob_gas == walk@[b].1.header.excess_blob_gas
                &&& meta.timestamp == walk@[b].1.header.timestamp
            },
            (None, None) => true,
            _ => false,
        },
{
    proof {
        lemma_location(walk_view(walk@), has_hash::<T>(hash));
    }
    match locate(walk, &hash) {
        Some((b, i)) => {
            let block = walk[b].1;
            let meta = TransactionMeta {
                tx_hash: hash,
                index: i as u64,
                block_hash: walk[b].0,
                block_number: block.header.number,
                base_fee: block.header.base_fee_per_gas,
                excess_blob_gas: block.header.excess_blob_gas,
                timestamp: block.header.timestamp,
            };
            Some((block.body.transactions[i].duplicate(), meta))
        },
        None => None,
    }
}

/// Finds the number of the block that holds the transaction with this number.
pub fn transaction_block<T: SignedTransaction>(walk: &[(B256, &Block<T>)], id: TxNumber) -> (number:
    Option<BlockNumber>)
    ensures
        number is Some <==> id < tx_list(walk_view(walk@)).len(),
        number is Some ==> exists|b: int| #[trigger]
            holds_number(walk_view(walk@), b, id as int) && number->0 == walk_view(
                walk@,
            )[b].1.header.number,
{
    let ghost views = walk_view(walk@);
    let mut current: u64 = 0;
    let mut b: usize = 0;
    while b < walk.len()
        invariant
            b <= walk.len(),
            views == walk_view(walk@),
            current == first_number(views, b as int),
            current <= id,
        decreases walk.len() - b,
    {
        let block = walk[b].1;
        let length: u64 = block.body.transactions.len() as u64;
        proof {
            assert(views[b as int].1.transactions.len() == length);
            let seen = views.take(b + 1);
            assert(seen.drop_last() =~= views.take(b as int));
            assert(seen.last() == views[b as int]);
        }
        if length > id - current {
            proof {
                assert(holds_number(views, b as int, id as int));
                lemma_tx_list_index(views, b as int, id - current);
            }
            return Some(block.header.number);
        }
        current += length;
        b += 1;
    }
    assert(views.take(views.len() as int) =~= views);
    None
}

/// Copies the transactions whose numbers lie in a range.
pub fn transactions_by_tx_range<T: SignedTransaction>(
    walk: &[(B256, &Block<T>)],
    range: &NumberRange,
) -> (transactions: Vec<T>)
    ensures
        seq_view(transactions@) == items_in_range(tx_list(walk_view(walk@)), *range),
{
    let list = all_transactions(walk);
    let ghost views = tx_list(walk_view(walk@));
    let mut transactions: Vec<T> = Vec::new();
    let mut i: usize = 0;
    while i < list.len()
        invariant
            i <= list.len(),
            seq_view(list@) == views,
            seq_view(transactions@) == items_in_range(views.take(i as int), *range),
        decreases list.len() - i,
    {
        let ghost before = transactions@;
        proof {
            let seen = views.take(i + 1);
            assert(seen.drop_last() =~= views.take(i as int));
            assert(seen.last() == list[i as int]@);
        }
        if range.contains(i as u64) {
            transactions.push(list[i].duplicate());
            assert(seq_view(transactions@) =~= seq_view(before).push(transactions@.last()@));
        }
        i += 1;
    }
    assert(views.take(views.len() as int) =~= views);
    transactions
}

/// Recovers the signers of the transactions whose numbers lie in a range, leaving out those that
/// cannot be recovered.
pub fn senders_by_tx_range<T: SignedTransaction>(
    walk: &[(B256, &Block<T>)],
    range: &NumberRange,
) -> (senders: Vec<Address>)
    ensures
        senders@ == known_signers::<T>(items_in_range(tx_list(walk_view(walk@)), *range)),
{
    let list = all_transactions(walk);
    let ghost views = tx_list(walk_view(walk@));
    let mut senders: Vec<Address> = Vec::new();
    let mut i: usize = 0;
    while i < list.len()
        invariant
            i <= list.len(),
            seq_view(list@) == views,
            senders@ == known_signers::<T>(items_in_range(views.take(i as int), *range)),
        decreases list.len() - i,
    {
        proof {
            let seen = views.take(i + 1);
            assert(seen.drop_last() =~= views.take(i as int));
            assert(seen.last() == list[i as int]@);
            let earlier = items_in_range(views.take(i as int), *range);
            assert(earlier.push(seen.last()).drop_last() =~= earlier);
        }
        if range.contains(i as u64) {
            if let Ok(signer) = list[i].recover_signer() {
                senders.push(signer);
            }
        }
        i += 1;
    }
    assert(views.take(views.len() as int) =~= views);
    senders
}

/// Recovers the signer of the transaction with this number.
pub fn transaction_sender<T: SignedTransaction>(
    walk: &[(B256, &Block<T>)],
    id: TxNumber,
) -> (sender: Option<Address>)
    requires
        nth(tx_list(walk_view(walk@)), id) matches Some(tx) ==> T::signer_of(tx) is Some,
    ensures
        sender == (match nth(tx_list(walk_view(walk@)), id) {
            Some(tx) => T::signer_of(tx),
            None => None,
        }),
{
    match transaction_by_id(walk, id) {
        Some(tx) => match tx.recover_signer() {
            Ok(signer) => Some(signer),
            Err(_) => None,
        },
        None => None,
    }
}

/// Recovers the signer of the transaction with this number, or says that it cannot be recovered.
pub fn try_transaction_sender<T: SignedTransaction>(
    walk: &[(B256, &Block<T>)],
    id: TxNumber,
) -> (sender: Result<Option<Address>, SignerError>)
    ensures
        sender == (match nth(tx_list(walk_view(walk@)), id) {
            Some(tx) => match T::signer_of(tx) {
                Some(signer) => Ok::<Option<Address>, SignerError>(Some(signer)),
                None => Err(SignerError),
            },
            None => Ok(None),
        }),
{
    if let Some(tx) = transaction_by_id(walk, id) {
        if tx.recover_signer().is_err() {
            return Err(SignerError);
        }
    }
    Ok(transaction_sender(walk, id))
}

/// Whether a block of the map holds a transaction that satisfies `p`.
pub open spec fn is_stored<V>(map: Map<B256, BlockView<V>>, p: spec_fn(V) -> bool) -> bool {
    exists|hash: B256, i: int|
        map.contains_key(hash) && 0 <= i < map[hash].transactions.len() && p(
            #[trigger] map[hash].transactions[i],
        )
}

/// A search through all transactions of a walk succeeds just where the map holds a match.
pub proof fn lemma_search_finds_stored<V>(
    walk: Seq<(B256, BlockView<V>)>,
    map: Map<B256, BlockView<V>>,
    p: spec_fn(V) -> bool,
)
    requires
        is_walk(walk, map),
    ensures
        first_position(tx_list(walk), p) is Some <==> is_stored(map, p),
        first_match(tx_list(walk), p) matches Some(tx) ==> p(tx),
{
    let list = tx_list(walk);
    lemma_first_position(list, p);
    match first_position(list, p) {
        Some(position) => {
            let b = lemma_number_has_block(walk, position);
            let i = position - first_number(walk, b);
            assert(map.contains_key(walk[b].0));
            assert(p(map[walk[b].0].transactions[i]));
        },
        None => {
            if is_stored(map, p) {
                let (hash, i) = choose|hash: B256, i: int|
                    map.contains_key(hash) && 0 <= i < map[hash].transactions.len() && p(
                        #[trigger] map[hash].transactions[i],
                    );
                let b = choose|b: int| 0 <= b < walk.len() && (#[trigger] walk[b]).0 == hash;
                assert(map[walk[b].0] == walk[b].1);
                lemma_tx_list_index(walk, b, i);
                assert(!p(list[first_number(walk, b) + i]));
            }
        },
    }
}

/// Taking a block out of a walk takes out its transactions.
proof fn lemma_tx_list_remove<V>(walk: Seq<(B256, BlockView<V>)>, at: int)
    requires
        0 <= at < walk.len(),
    ensures
        tx_list(walk).to_multiset() == tx_list(walk.remove(at)).to_multiset().add(
            walk[at].1.transactions.to_multiset(),
        ),
    decreases walk.len(),
{
    let rest = walk.remove(at);
    let earlier = walk.drop_last();
    vstd::seq_lib::lemma_multiset_commutative(tx_list(earlier), walk.last().1.transactions);
    if at == walk.len() - 1 {
        assert(rest =~= earlier);
    } else {
        lemma_tx_list_remove(earlier, at);
        assert(rest.drop_last() =~= earlier.remove(at));
        assert(rest.last() == walk.last());
        vstd::seq_lib::lemma_multiset_commutative(
            tx_list(earlier.remove(at)),
            walk.last().1.transactions,
        );
        assert(tx_list(walk).to_multiset() =~= tx_list(rest).to_multiset().add(
            walk[at].1.transactions.to_multiset(),
        ));
    }
}

/// Whatever the order in which the blocks are walked, the same transactions are numbered.
pub proof fn lemma_tx_list_any_walk<V>(
    left: Seq<(B256, BlockView<V>)>,
    right: Seq<(B256, BlockView<V>)>,
    map: Map<B256, BlockView<V>>,
)
    requires
        is_walk(left, map),
        is_walk(right, map),
    ensures
        tx_list(left).to_multiset() == tx_list(right).to_multiset(),
        tx_list(left).len() == tx_list(right).len(),
    decreases left.len(),
{
    if left.len() == 0 {
        if right.len() > 0 {
            assert(map.contains_key(right[0].0));
        }
    } else {
        let last = left.len() - 1;
        let key = left[last].0;
        assert(map.contains_key(key));
        let at = choose|i: int| 0 <= i < right.len() && (#[trigger] right[i]).0 == key;
        assert(map[right[at].0] == right[at].1);
        lemma_walk_remove(left, map, last);
        lemma_walk_remove(right, map, at);
        lemma_tx_list_remove(left, last);
        lemma_tx_list_remove(right, at);
        lemma_tx_list_any_walk(left.remove(last), right.remove(at), map.remove(key));
    }
    tx_list(left).to_multiset_ensures();
    tx_list(right).to_multiset_ensures();
}

} // verus!
