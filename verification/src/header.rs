//! Block headers.

use crate::primitives::{copy_vec, Address, B256, BlockHash, BlockNumber, U256};
use vstd::prelude::*;

verus! {

/// A block header.
#[derive(Debug)]
pub struct Header {
    pub parent_hash: B256,
    pub ommers_hash: B256,
    pub beneficiary: Address,
    pub state_root: B256,
    pub transactions_root: B256,
    pub receipts_root: B256,
    pub logs_bloom: [u8; 256],
    pub difficulty: U256,
    pub number: BlockNumber,
    pub gas_limit: u64,
    pub gas_used: u64,
    pub timestamp: u64,
    pub extra_data: Vec<u8>,
    pub mix_hash: B256,
    pub nonce: [u8; 8],
    pub base_fee_per_gas: Option<u64>,
    pub withdrawals_root: Option<B256>,
    pub blob_gas_used: Option<u64>,
    pub excess_blob_gas: Option<u64>,
    pub parent_beacon_block_root: Option<B256>,
    pub requests_hash: Option<B256>,
}

/// What a [`Header`] holds.
#[verifier::ext_equal]
pub struct HeaderView {
    pub parent_hash: B256,
    pub ommers_hash: B256,
    pub beneficiary: Address,
    pub state_root: B256,
    pub transactions_root: B256,
    pub receipts_root: B256,
    pub logs_bloom: [u8; 256],
    pub difficulty: nat,
    pub number: BlockNumber,
    pub gas_limit: u64,
    pub gas_used: u64,
    pub timestamp: u64,
    pub extra_data: Seq<u8>,
    pub mix_hash: B256,
    pub nonce: [u8; 8],
    pub base_fee_per_gas: Option<u64>,
    pub withdrawals_root: Option<B256>,
    pub blob_gas_used: Option<u64>,
    pub excess_blob_gas: Option<u64>,
    pub parent_beacon_block_root: Option<B256>,
    pub requests_hash: Option<B256>,
}

impl View for Header {
    type V = HeaderView;

    open spec fn view(&self) -> HeaderView {
        HeaderView {
            parent_hash: self.parent_hash,
            ommers_hash: self.ommers_hash,
            beneficiary: self.beneficiary,
            state_root: self.state_root,
            transactions_root: self.transactions_root,
            receipts_root: self.receipts_root,
            logs_bloom: self.logs_bloom,
            difficulty: self.difficulty@,
            number: self.number,
            gas_limit: self.gas_limit,
            gas_used: self.gas_used,
            timestamp: self.timestamp,
            extra_data: self.extra_data@,
            mix_hash: self.mix_hash,
            nonce: self.nonce,
            base_fee_per_gas: self.base_fee_per_gas,
            withdrawals_root: self.withdrawals_root,
            blob_gas_used: self.blob_gas_used,
            excess_blob_gas: self.excess_blob_gas,
            parent_beacon_block_root: self.parent_beacon_block_root,
            requests_hash: self.requests_hash,
        }
    }
}

impl Clone for Header {
    fn clone(&self) -> (copy: Header)
        ensures
            copy@ == self@,
    {
        Header {
            parent_hash: self.parent_hash,
            ommers_hash: self.ommers_hash,
            beneficiary: self.beneficiary,
            state_root: self.state_root,
            transactions_root: self.transactions_root,
            receipts_root: self.receipts_root,
            logs_bloom: self.logs_bloom,
            difficulty: self.difficulty,
            number: self.number,
            gas_limit: self.gas_limit,
            gas_used: self.gas_used,
            timestamp: self.timestamp,
            extra_data: copy_vec(&self.extra_data),
            mix_hash: self.mix_hash,
            nonce: self.nonce,
            base_fee_per_gas: self.base_fee_per_gas,
            withdrawals_root: self.withdrawals_root,
            blob_gas_used: self.blob_gas_used,
            excess_blob_gas: self.excess_blob_gas,
            parent_beacon_block_root: self.parent_beacon_block_root,
            requests_hash: self.requests_hash,
        }
    }
}

/// The hash of a header, as `alloy_consensus::Header::hash_slow` computes it.
pub uninterp spec fn header_hash(header: HeaderView) -> BlockHash;

/// Calls `alloy_consensus::Header::hash_slow`, which hashes the RLP encoding of the header; the
/// hash depends on the fields alone.
#[verifier::external_body]
fn hash_slow(header: Header) -> (hash: BlockHash)
    ensures
        hash == header_hash(header@),
{
    let Header { parent_hash, ommers_hash, beneficiary, state_root, transactions_root,
        receipts_root, logs_bloom, difficulty, number, gas_limit, gas_used, timestamp, extra_data,
        mix_hash, nonce, base_fee_per_gas, withdrawals_root, blob_gas_used, excess_blob_gas,
        parent_beacon_block_root, requests_hash } = header;
    let b = alloy_primitives::B256::new;
    alloy_consensus::Header { parent_hash: b(parent_hash), ommers_hash: b(ommers_hash),
        beneficiary: beneficiary.into(), state_root: b(state_root),
        transactions_root: b(transactions_root), receipts_root: b(receipts_root),
        logs_bloom: logs_bloom.into(), number, gas_limit, gas_used, timestamp,
        difficulty: alloy_primitives::U256::from_limbs(difficulty.limbs),
        extra_data: extra_data.into(), mix_hash: b(mix_hash), nonce: nonce.into(),
        base_fee_per_gas, withdrawals_root: withdrawals_root.map(b), blob_gas_used, excess_blob_gas,
        parent_beacon_block_root: parent_beacon_block_root.map(b),
        requests_hash: requests_hash.map(b) }.hash_slow().0
}

/// A header together with its hash.
#[derive(Debug)]
pub struct SealedHeader {
    pub hash: BlockHash,
    pub header: Header,
}

/// What a [`SealedHeader`] holds.
#[verifier::ext_equal]
pub struct SealedHeaderView {
    pub hash: BlockHash,
    pub header: HeaderView,
}

impl View for SealedHeader {
    type V = SealedHeaderView;

    open spec fn view(&self) -> SealedHeaderView {
        SealedHeaderView { hash: self.hash, header: self.header@ }
    }
}

/// A header together with the hash computed from it.
pub open spec fn sealed(header: HeaderView) -> SealedHeaderView {
    SealedHeaderView { hash: header_hash(header), header }
}

impl SealedHeader {
    /// Seals a header by computing its hash.
    pub fn seal_slow(header: Header) -> (sealed_header: SealedHeader)
        ensures
            sealed_header@ == sealed(header@),
            sealed_header.header == header,
            sealed_header.hash == header_hash(header@),
    {
        SealedHeader { hash: hash_slow(header.clone()), header }
    }
}

} // verus!
