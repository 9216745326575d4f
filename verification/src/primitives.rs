//! Fixed-size words: hashes, addresses and 256-bit integers.

use vstd::prelude::*;

verus! {

/// A 256-bit hash.
pub type B256 = [u8; 32];

/// A 160-bit account address.
pub type Address = [u8; 20];

/// The hash of a block.
pub type BlockHash = B256;

/// The number of a block.
pub type BlockNumber = u64;

/// The hash of a transaction.
pub type TxHash = B256;

/// The position of a transaction among all stored transactions.
pub type TxNumber = u64;

/// The key of a storage slot.
pub type StorageKey = B256;

/// The value of a storage slot.
pub type StorageValue = U256;

/// Whether every byte of a hash is zero.
pub open spec fn is_zero_hash(hash: B256) -> bool {
    forall|i: int| 0 <= i < 32 ==> hash[i] == 0
}

/// The hash whose bytes are all zero.
pub fn zero_hash() -> (hash: B256)
    ensures
        is_zero_hash(hash),
{
    [0u8; 32]
}

/// A 256-bit unsigned integer, least significant limb first.
#[derive(Debug, Clone, Copy, PartialEq, Eq)]
pub struct U256 {
    pub limbs: [u64; 4],
}

/// The number of values a [`U256`] can take.
pub open spec fn u256_modulus() -> nat {
    0x1_0000000000000000_0000000000000000_0000000000000000_0000000000000000nat
}

/// The weight of the second limb of a [`U256`].
pub open spec fn limb_modulus() -> nat {
    0x1_0000000000000000nat
}

impl View for U256 {
    type V = nat;

    open spec fn view(&self) -> nat {
        let base = limb_modulus();
        (self.limbs[0] + base * (self.limbs[1] + base * (self.limbs[2] + base
            * self.limbs[3]))) as nat
    }
}

impl U256 {
    /// The integer zero.
    pub fn zero() -> (value: U256)
        ensures
            value@ == 0,
    {
        U256 { limbs: [0u64; 4] }
    }

    /// Adds two integers, wrapping around at 2^256.
    pub fn wrapping_add(self, other: U256) -> (sum: U256)
        ensures
            sum@ == (self@ + other@) % u256_modulus(),
    {
        uint_add(self, other)
    }
}

/// A 256-bit integer is less than 2^256.
pub proof fn lemma_u256_bounded(value: U256)
    ensures
        value@ < u256_modulus(),
{
}

/// The sum of two integers by `+` on `alloy_primitives::U256`, which wraps around at 2^256.
#[verifier::external_body]
fn uint_add(left: U256, right: U256) -> (sum: U256)
    ensures
        sum@ == (left@ + right@) % u256_modulus(),
{
    let left = alloy_primitives::U256::from_limbs(left.limbs);
    let right = alloy_primitives::U256::from_limbs(right.limbs);
    U256 { limbs: (left + right).into_limbs() }
}

/// The Keccak-256 digest of a byte string, as `alloy_primitives::keccak256` computes it.
pub uninterp spec fn keccak256_of(data: Seq<u8>) -> B256;

/// Calls `alloy_primitives::keccak256`; the digest depends on the bytes alone.
#[verifier::external_body]
pub(crate) fn keccak256(data: &[u8]) -> (digest: B256)
    ensures
        digest == keccak256_of(data@),
{
    alloy_primitives::keccak256(data).0
}

/// Compares two byte arrays of one length.
pub fn bytes_equal<const N: usize>(left: &[u8; N], right: &[u8; N]) -> (equal: bool)
    ensures
        equal == (*left == *right),
{
    let mut i: usize = 0;
    while i < N
        invariant
            i <= N,
            forall|j: int| 0 <= j < i ==> left[j] == right[j],
        decreases N - i,
    {
        if left[i] != right[i] {
            return false;
        }
        i += 1;
    }
    assert(*left =~= *right);
    true
}

/// Copies a vector of copyable items.
pub(crate) fn copy_vec<A: Copy>(items: &Vec<A>) -> (copy: Vec<A>)
    ensures
        copy@ == items@,
{
    let mut copy: Vec<A> = Vec::new();
    let mut i: usize = 0;
    while i < items.len()
        invariant
            i <= items.len(),
            copy@ == items@.take(i as int),
        decreases items.len() - i,
    {
        copy.push(items[i]);
        i += 1;
        assert(items@.take(i as int) =~= items@.take(i - 1).push(items@[i - 1]));
    }
    assert(items@.take(items@.len() as int) =~= items@);
    copy
}

/// The view of an optional value.
pub open spec fn opt_view<V: View>(value: Option<V>) -> Option<V::V> {
    match value {
        Some(v) => Some(v@),
        None => None,
    }
}

/// The views of the items of a sequence.
pub open spec fn seq_view<V: View>(items: Seq<V>) -> Seq<V::V> {
    items.map_values(|v: V| v@)
}

} // verus!
