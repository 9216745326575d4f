//! Blocks and the ways to name one.

use crate::header::{Header, HeaderView};
use crate::primitives::{copy_vec, opt_view, seq_view, Address, B256, BlockHash, BlockNumber};
use crate::transaction::SignedTransaction;
use vstd::prelude::*;

verus! {

/// A withdrawal from the beacon chain to an account.
#[derive(Debug, Clone, Copy, PartialEq, Eq)]
pub struct Withdrawal {
    pub index: u64,
    pub validator_index: u64,
    pub address: Address,
    pub amount: u64,
}

/// The withdrawals of a block.
#[derive(Debug)]
pub struct Withdrawals(pub Vec<Withdrawal>);

impl View for Withdrawals {
    type V = Seq<Withdrawal>;

    open spec fn view(&self) -> Seq<Withdrawal> {
        self.0@
    }
}

impl Clone for Withdrawals {
    fn clone(&self) -> (copy: Withdrawals)
        ensures
            copy@ == self@,
    {
        Withdrawals(copy_vec(&self.0))
    }
}

/// The body of a block.
#[derive(Debug)]
pub struct BlockBody<T> {
    pub transactions: Vec<T>,
    pub ommers: Vec<Header>,
    pub withdrawals: Option<Withdrawals>,
}

/// A block of transactions.
#[derive(Debug)]
pub struct Block<T> {
    pub header: Header,
    pub body: BlockBody<T>,
}

/// What a [`Block`] holds.
#[verifier::ext_equal]
pub struct BlockView<V> {
    pub header: HeaderView,
    pub transactions: Seq<V>,
    pub ommers: Seq<HeaderView>,
    pub withdrawals: Option<Seq<Withdrawal>>,
}

impl<T: View> View for Block<T> {
    type V = BlockView<T::V>;

    open spec fn view(&self) -> BlockView<T::V> {
        BlockView {
            header: self.header@,
            transactions: seq_view(self.body.transactions@),
            ommers: seq_view(self.body.ommers@),
            withdrawals: opt_view(self.body.withdrawals),
        }
    }
}

/// Copies a list of headers.
pub(crate) fn copy_headers(headers: &Vec<Header>) -> (copies: Vec<Header>)
    ensures
        seq_view(copies@) == seq_view(headers@),
{
    let mut copies: Vec<Header> = Vec::new();
    let mut i: usize = 0;
    while i < headers.len()
        invariant
            i <= headers.len(),
            seq_view(copies@) == seq_view(headers@).take(i as int),
        decreases headers.len() - i,
    {
        let ghost before = copies@;
        copies.push(headers[i].clone());
        i += 1;
        assert(seq_view(copies@) =~= seq_view(before).push(copies@.last()@));
    }
    assert(seq_view(headers@).take(headers@.len() as int) =~= seq_view(headers@));
    copies
}

/// Copies a list of transactions.
pub(crate) fn copy_transactions<T: SignedTransaction>(transactions: &Vec<T>) -> (copies: Vec<T>)
    ensures
        seq_view(copies@) == seq_view(transactions@),
{
    let mut copies: Vec<T> = Vec::new();
    let mut i: usize = 0;
    while i < transactions.len()
        invariant
            i <= transactions.len(),
            seq_view(copies@) == seq_view(transactions@).take(i as int),
        decreases transactions.len() - i,
    {
        let ghost before = copies@;
        copies.push(transactions[i].duplicate());
        i += 1;
        assert(seq_view(copies@) =~= seq_view(before).push(copies@.last()@));
    }
    assert(seq_view(transactions@).take(transactions@.len() as int) =~= seq_view(transactions@));
    copies
}

impl<T: SignedTransaction> Block<T> {
    /// Makes a copy of the block.
    pub fn duplicate(&self) -> (copy: Block<T>)
        ensures
            copy@ == self@,
    {
        let withdrawals = match &self.body.withdrawals {
            Some(withdrawals) => Some(withdrawals.clone()),
            None => None,
        };
        Block {
            header: self.header.clone(),
            body: BlockBody {
                transactions: copy_transactions(&self.body.transactions),
                ommers: copy_headers(&self.body.ommers),
                withdrawals,
            },
        }
    }
}

/// A block named by its hash or its number.
#[derive(Debug, Clone, Copy, PartialEq, Eq)]
pub enum BlockHashOrNumber {
    Hash(B256),
    Number(BlockNumber),
}

/// A block named by its number or by its place in the chain.
#[derive(Debug, Clone, Copy, PartialEq, Eq, Structural)]
pub enum BlockNumberOrTag {
    Latest,
    Finalized,
    Safe,
    Earliest,
    Pending,
    Number(BlockNumber),
}

/// A block hash, and whether the block must be canonical.
#[derive(Debug, Clone, Copy, PartialEq, Eq)]
pub struct RpcBlockHash {
    pub block_hash: BlockHash,
    pub require_canonical: Option<bool>,
}

/// A block named by its hash, its number or its place in the chain.
#[derive(Debug, Clone, Copy, PartialEq, Eq)]
pub enum BlockId {
    Hash(RpcBlockHash),
    Number(BlockNumberOrTag),
}

/// The number and the hash of a block.
#[derive(Debug, Clone, Copy, PartialEq, Eq)]
pub struct BlockNumHash {
    pub number: BlockNumber,
    pub hash: BlockHash,
}

/// The tip of the chain.
#[derive(Debug, Clone, Copy, PartialEq, Eq)]
pub struct ChainInfo {
    pub best_hash: BlockHash,
    pub best_number: BlockNumber,
}

/// Which blocks a lookup considers.
#[derive(Debug, Clone, Copy, PartialEq, Eq, Structural)]
pub enum BlockSource {
    Any,
    Pending,
    Canonical,
}

/// Whether the transactions of a block come with their hashes.
#[derive(Debug, Clone, Copy, PartialEq, Eq, Structural)]
pub enum TransactionVariant {
    NoHash,
    WithHash,
}

} // verus!
