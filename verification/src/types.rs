//! Data that the provider hands out or takes in without looking into it.

use crate::account::Account;
use crate::block::BlockNumHash;
use crate::primitives::{copy_vec, Address, B256, BlockNumber, TxNumber};
use vstd::prelude::*;

verus! {

/// A chain specification.
#[derive(Debug, Clone, Copy, PartialEq, Eq, Structural)]
pub struct ChainSpec {
    /// The chain's identifier.
    pub chain: u64,
}

impl ChainSpec {
    /// The specification of the Ethereum main network.
    pub fn mainnet() -> (spec: ChainSpec)
        ensures
            spec.chain == 1,
    {
        ChainSpec { chain: 1 }
    }
}

/// Up to where a segment of history is pruned.
#[derive(Debug, Clone, Copy, PartialEq, Eq, Structural)]
pub enum PruneMode {
    /// Everything.
    Full,
    /// Everything but the most recent blocks.
    Distance(u64),
    /// Everything before a block.
    Before(BlockNumber),
}

/// How each segment of history is pruned.
#[derive(Debug, Clone, Copy, PartialEq, Eq)]
pub struct PruneModes {
    pub sender_recovery: Option<PruneMode>,
    pub transaction_lookup: Option<PruneMode>,
    pub receipts: Option<PruneMode>,
    pub account_history: Option<PruneMode>,
    pub storage_history: Option<PruneMode>,
}

impl Default for PruneModes {
    /// Nothing is pruned.
    fn default() -> (modes: PruneModes)
        ensures
            modes == (PruneModes {
                sender_recovery: None,
                transaction_lookup: None,
                receipts: None,
                account_history: None,
                storage_history: None,
            }),
    {
        PruneModes {
            sender_recovery: None,
            transaction_lookup: None,
            receipts: None,
            account_history: None,
            storage_history: None,
        }
    }
}

/// A database transaction that is backed by a plain table.
#[derive(Debug)]
pub struct TxMock {
    pub table: Vec<(String, Vec<u8>)>,
}

impl Default for TxMock {
    /// A transaction with an empty table.
    fn default() -> (tx: TxMock)
        ensures
            tx.table@.len() == 0,
    {
        TxMock { table: Vec::new() }
    }
}

/// A log entry of a receipt.
#[derive(Debug)]
pub struct Log {
    pub address: Address,
    pub topics: Vec<B256>,
    pub data: Vec<u8>,
}

/// The outcome of a transaction.
#[derive(Debug)]
pub struct Receipt {
    pub tx_type: u8,
    pub success: bool,
    pub cumulative_gas_used: u64,
    pub logs: Vec<Log>,
}

/// The stages of a sync.
#[derive(Debug, Clone, Copy, PartialEq, Eq, Structural)]
pub enum StageId {
    Era,
    Headers,
    Bodies,
    SenderRecovery,
    Execution,
    PruneSenderRecovery,
    MerkleUnwind,
    AccountHashing,
    StorageHashing,
    MerkleExecute,
    TransactionLookup,
    IndexStorageHistory,
    IndexAccountHistory,
    Prune,
    Finish,
}

/// How far a stage has come.
#[derive(Debug, Clone, Copy, PartialEq, Eq, Structural)]
pub struct StageCheckpoint {
    pub block_number: BlockNumber,
}

/// Which transactions belong to a block.
#[derive(Debug, Clone, Copy, PartialEq, Eq, Structural)]
pub struct StoredBlockBodyIndices {
    pub first_tx_num: TxNumber,
    pub tx_count: u64,
}

/// An account as it was before a block.
#[derive(Debug, Clone, Copy, PartialEq, Eq)]
pub struct AccountBeforeTx {
    pub address: Address,
    pub info: Option<Account>,
}

/// The outcome of executing blocks.
#[derive(Debug)]
pub struct ExecutionOutcome {
    pub receipts: Vec<Vec<Receipt>>,
    pub first_block: BlockNumber,
    pub requests: Vec<Vec<Vec<u8>>>,
}

/// A change of the canonical chain.
#[derive(Debug)]
pub struct CanonStateNotification {
    /// The blocks that left the chain.
    pub reverted: Vec<BlockNumHash>,
    /// The blocks that joined the chain.
    pub committed: Vec<BlockNumHash>,
}

impl Clone for CanonStateNotification {
    fn clone(&self) -> (copy: CanonStateNotification)
        ensures
            copy.reverted@ == self.reverted@,
            copy.committed@ == self.committed@,
    {
        CanonStateNotification {
            reverted: copy_vec(&self.reverted),
            committed: copy_vec(&self.committed),
        }
    }
}

} // verus!
