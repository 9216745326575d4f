use mock_eth_provider::block::{
    Block, BlockBody, BlockHashOrNumber, BlockId, BlockNumberOrTag, BlockSource, RpcBlockHash,
    TransactionVariant, Withdrawal, Withdrawals,
};
use mock_eth_provider::blocks;
use mock_eth_provider::error::ProviderError;
use mock_eth_provider::header::{Header, SealedHeader};
use mock_eth_provider::primitives::{B256, U256};
use mock_eth_provider::provider::MockEthProvider;
use mock_eth_provider::range::NumberRange;
use mock_eth_provider::transaction::{Signature, TransactionSigned};

fn hash(byte: u8) -> B256 {
    [byte; 32]
}

fn header(number: u64) -> Header {
    Header {
        parent_hash: [0; 32],
        ommers_hash: [0; 32],
        beneficiary: [0; 20],
        state_root: [0; 32],
        transactions_root: [0; 32],
        receipts_root: [0; 32],
        logs_bloom: [0; 256],
        difficulty: U256 { limbs: [0; 4] },
        number,
        gas_limit: 0,
        gas_used: 0,
        timestamp: 0,
        extra_data: Vec::new(),
        mix_hash: [0; 32],
        nonce: [0; 8],
        base_fee_per_gas: None,
        withdrawals_root: None,
        blob_gas_used: None,
        excess_blob_gas: None,
        parent_beacon_block_root: None,
        requests_hash: None,
    }
}

fn transaction(byte: u8) -> TransactionSigned {
    TransactionSigned {
        hash: hash(byte),
        signature_hash: hash(0),
        signature: Signature {
            r: U256 { limbs: [0; 4] },
            s: U256 { limbs: [0; 4] },
            odd_y_parity: false,
        },
        encoded: vec![byte],
    }
}

fn block(number: u64, transactions: &[u8]) -> Block<TransactionSigned> {
    Block {
        header: header(number),
        body: BlockBody {
            transactions: transactions.iter().map(|byte| transaction(*byte)).collect(),
            ommers: vec![header(number + 100)],
            withdrawals: Some(Withdrawals(vec![Withdrawal {
                index: number,
                validator_index: 1,
                address: [2; 20],
                amount: 3,
            }])),
        },
    }
}

fn hashes(transactions: &[TransactionSigned]) -> Vec<u8> {
    transactions.iter().map(|tx| tx.hash[0]).collect()
}

fn filled() -> MockEthProvider {
    let mut provider: MockEthProvider = MockEthProvider::default();
    provider.extend_blocks(vec![
        (hash(3), block(3, &[31])),
        (hash(1), block(1, &[11, 12])),
        (hash(2), block(2, &[])),
    ]);
    provider
}

#[test]
fn block_is_read_back_with_its_header() {
    let mut provider: MockEthProvider = MockEthProvider::new();
    provider.add_block(hash(5), block(7, &[1, 2]));
    let found = provider.block(BlockHashOrNumber::Hash(hash(5))).unwrap().unwrap();
    assert_eq!(found.header.number, 7);
    assert_eq!(hashes(&found.body.transactions), vec![1, 2]);
    assert_eq!(found.body.transactions[1].encoded, vec![2]);
    assert_eq!(found.body.ommers[0].number, 107);
    assert_eq!(found.body.withdrawals.unwrap().0[0].amount, 3);
    assert_eq!(provider.header(&hash(5)).unwrap().unwrap().number, 7);
    assert_eq!(provider.block_number(hash(5)), Ok(Some(7)));
    assert_eq!(provider.block_hash(7), Ok(Some(hash(5))));
    assert!(provider.block(BlockHashOrNumber::Hash(hash(6))).unwrap().is_none());
}

#[test]
fn header_alone_is_no_block() {
    let mut provider: MockEthProvider = MockEthProvider::new();
    provider.add_header(hash(5), header(7));
    assert!(provider.block_by_hash(hash(5)).unwrap().is_none());
    assert_eq!(provider.block_number(hash(5)), Ok(None));
    assert_eq!(provider.block_hash(7), Ok(None));
}

#[test]
fn blocks_of_a_list_are_all_added() {
    let provider = filled();
    assert_eq!(provider.blocks.len(), 3);
    assert_eq!(provider.headers.len(), 3);
    for number in [1, 2, 3] {
        let byte = number as u8;
        assert_eq!(provider.block_hash(number), Ok(Some(hash(byte))));
        assert_eq!(provider.header(&hash(byte)).unwrap().unwrap().number, number);
    }
}

#[test]
fn later_block_of_a_list_wins() {
    let mut provider: MockEthProvider = MockEthProvider::new();
    provider.extend_blocks(vec![(hash(1), block(1, &[1])), (hash(1), block(2, &[2]))]);
    assert_eq!(provider.block_number(hash(1)), Ok(Some(2)));
    assert_eq!(provider.header(&hash(1)).unwrap().unwrap().number, 2);
    assert_eq!(provider.block_hash(1), Ok(None));
}

#[test]
fn two_lists_add_what_one_list_adds() {
    let mut twice: MockEthProvider = MockEthProvider::new();
    twice.extend_blocks(vec![(hash(1), block(1, &[])), (hash(2), block(2, &[]))]);
    twice.extend_blocks(vec![(hash(2), block(3, &[]))]);
    let mut once: MockEthProvider = MockEthProvider::new();
    once.extend_blocks(vec![
        (hash(1), block(1, &[])),
        (hash(2), block(2, &[])),
        (hash(2), block(3, &[])),
    ]);
    for byte in [1, 2, 3] {
        assert_eq!(twice.block_number(hash(byte)), once.block_number(hash(byte)));
    }
    assert_eq!(once.block_number(hash(2)), Ok(Some(3)));
}

#[test]
fn block_by_number() {
    let provider = filled();
    let found = provider.block(BlockHashOrNumber::Number(1)).unwrap().unwrap();
    assert_eq!(hashes(&found.body.transactions), vec![11, 12]);
    assert!(provider.block(BlockHashOrNumber::Number(4)).unwrap().is_none());
}

#[test]
fn block_by_hash_ignores_the_source() {
    let provider = filled();
    for source in [BlockSource::Any, BlockSource::Pending, BlockSource::Canonical] {
        let found = provider.find_block_by_hash(hash(3), source).unwrap().unwrap();
        assert_eq!(found.header.number, 3);
        assert!(provider.find_block_by_hash(hash(4), source).unwrap().is_none());
    }
}

#[test]
fn block_by_tag() {
    let provider = filled();
    let latest = provider.block_by_number_or_tag(BlockNumberOrTag::Latest).unwrap().unwrap();
    assert_eq!(latest.header.number, 3);
    assert!(provider.block_by_number_or_tag(BlockNumberOrTag::Earliest).unwrap().is_none());
    assert!(provider.block_by_number_or_tag(BlockNumberOrTag::Pending).unwrap().is_none());
    assert!(provider.block_by_number_or_tag(BlockNumberOrTag::Finalized).unwrap().is_none());
    assert!(provider.block_by_number_or_tag(BlockNumberOrTag::Safe).unwrap().is_none());
    let second = provider.block_by_number_or_tag(BlockNumberOrTag::Number(2)).unwrap().unwrap();
    assert_eq!(second.header.number, 2);
}

#[test]
fn earliest_block_has_number_zero() {
    let mut provider = filled();
    provider.add_block(hash(9), block(0, &[]));
    let earliest = provider.block_by_number_or_tag(BlockNumberOrTag::Earliest).unwrap().unwrap();
    assert_eq!(earliest.header.number, 0);
}

#[test]
fn latest_header_may_have_no_block() {
    let mut provider = filled();
    provider.add_header(hash(8), header(8));
    assert!(provider.block_by_number_or_tag(BlockNumberOrTag::Latest).unwrap().is_none());
}

#[test]
fn latest_block_of_an_empty_provider_is_not_found() {
    let provider: MockEthProvider = MockEthProvider::new();
    let latest = BlockId::Number(BlockNumberOrTag::Latest);
    let missing = ProviderError::BestBlockNotFound;
    assert_eq!(provider.convert_block_number(BlockNumberOrTag::Latest), Err(missing));
    assert_eq!(provider.block_by_id(latest).unwrap_err(), missing);
    assert_eq!(provider.header_by_id(latest).unwrap_err(), missing);
    assert_eq!(provider.sealed_header_by_id(latest).unwrap_err(), missing);
    assert_eq!(provider.ommers_by_id(latest).unwrap_err(), missing);
    assert_eq!(provider.ommers_by_number_or_tag(BlockNumberOrTag::Latest).unwrap_err(), missing);
    assert!(provider.ommers_by_number_or_tag(BlockNumberOrTag::Earliest).unwrap().is_none());
}

#[test]
fn block_by_id() {
    let provider = filled();
    let by_hash = BlockId::Hash(RpcBlockHash { block_hash: hash(2), require_canonical: None });
    let by_number = BlockId::Number(BlockNumberOrTag::Number(2));
    for id in [by_hash, by_number] {
        assert_eq!(provider.block_by_id(id).unwrap().unwrap().header.number, 2);
        assert_eq!(provider.header_by_id(id).unwrap().unwrap().number, 2);
        let sealed = provider.sealed_header_by_id(id).unwrap().unwrap();
        assert_eq!(sealed.hash, SealedHeader::seal_slow(header(2)).hash);
        assert!(provider.ommers_by_id(id).unwrap().is_none());
    }
    let unknown = BlockId::Hash(RpcBlockHash { block_hash: hash(9), require_canonical: None });
    assert!(provider.block_by_id(unknown).unwrap().is_none());
    assert!(provider.header_by_id(unknown).unwrap().is_none());
    assert!(provider.sealed_header_by_id(unknown).unwrap().is_none());
}

#[test]
fn identifier_and_number_find_the_same_block_on_a_walk() {
    let (a, b) = (block(2, &[1]), block(2, &[3]));
    for walk in [[(hash(1), &a), (hash(3), &b)], [(hash(3), &b), (hash(1), &a)]] {
        let by_number = blocks::block(&walk, BlockHashOrNumber::Number(2)).unwrap();
        let expected = hashes(&by_number.body.transactions);
        assert_eq!(expected, hashes(&walk[0].1.body.transactions));
        for tag in [BlockNumberOrTag::Number(2), BlockNumberOrTag::Latest] {
            let found = blocks::block_by_id(&walk, Ok(2), BlockId::Number(tag)).unwrap().unwrap();
            assert_eq!(hashes(&found.body.transactions), expected);
        }
        for require_canonical in [None, Some(true), Some(false)] {
            let id = BlockId::Hash(RpcBlockHash { block_hash: hash(3), require_canonical });
            let found = blocks::block_by_id(&walk, Ok(2), id).unwrap().unwrap();
            assert_eq!(hashes(&found.body.transactions), vec![3]);
        }
    }
}

#[test]
fn identifier_on_a_walk_without_a_latest_block() {
    let a = block(0, &[1]);
    let walk = [(hash(1), &a)];
    let missing = ProviderError::BestBlockNotFound;
    let latest = BlockId::Number(BlockNumberOrTag::Latest);
    assert_eq!(blocks::block_by_id(&walk, Err(missing), latest).unwrap_err(), missing);
    let earliest = BlockId::Number(BlockNumberOrTag::Earliest);
    assert!(blocks::block_by_id(&walk, Err(missing), earliest).unwrap().is_some());
    let unknown = BlockHashOrNumber::Hash(hash(9));
    assert!(blocks::block(&walk, unknown).is_none());
}

#[test]
fn bodies_match_blocks_where_numbers_differ_in_the_range() {
    let (a, b, c) = (block(5, &[1]), block(1, &[2]), block(5, &[3]));
    let walk = [(hash(1), &a), (hash(2), &b), (hash(3), &c)];
    let bodies = blocks::transactions_by_block_range(&walk, &NumberRange::half_open(0, 5));
    let found = blocks::block_range(&walk, &(0..=4));
    assert_eq!(bodies.len(), 1);
    assert_eq!(hashes(&bodies[0]), hashes(&found[0].body.transactions));
}

#[test]
fn tags_stand_for_numbers() {
    let provider = filled();
    assert_eq!(provider.convert_block_number(BlockNumberOrTag::Latest), Ok(Some(3)));
    assert_eq!(provider.convert_block_number(BlockNumberOrTag::Earliest), Ok(Some(0)));
    assert_eq!(provider.convert_block_number(BlockNumberOrTag::Number(7)), Ok(Some(7)));
    assert_eq!(provider.convert_block_number(BlockNumberOrTag::Pending), Ok(None));
    assert_eq!(provider.convert_block_number(BlockNumberOrTag::Finalized), Ok(None));
    assert_eq!(provider.convert_block_number(BlockNumberOrTag::Safe), Ok(None));
}

#[test]
fn block_range_is_sorted_and_inclusive() {
    let provider = filled();
    let found = provider.block_range(1..=2).unwrap();
    let numbers: Vec<u64> = found.iter().map(|block| block.header.number).collect();
    assert_eq!(numbers, vec![1, 2]);
    assert_eq!(hashes(&found[0].body.transactions), vec![11, 12]);
    assert_eq!(provider.block_range(0..=9).unwrap().len(), 3);
    assert!(provider.block_range(4..=9).unwrap().is_empty());
}

#[test]
fn used_up_range_loses_its_last_number() {
    let provider = filled();
    let mut range = 1..=2;
    range.by_ref().for_each(drop);
    assert!(provider.block_range(range).unwrap().is_empty());
}

#[test]
fn canonical_hashes_are_sorted_and_half_open() {
    let provider = filled();
    assert_eq!(provider.canonical_hashes_range(1, 3), Ok(vec![hash(1), hash(2)]));
    assert_eq!(provider.canonical_hashes_range(0, 9), Ok(vec![hash(1), hash(2), hash(3)]));
    assert_eq!(provider.canonical_hashes_range(2, 2), Ok(vec![]));
}

#[test]
fn hashes_of_adjoining_ranges_concatenate() {
    let (a, b, c) = (block(2, &[1]), block(1, &[2]), block(2, &[3]));
    let walk = [(hash(1), &a), (hash(2), &b), (hash(3), &c)];
    let mut found = blocks::canonical_hashes_range(&walk, 1, 2);
    found.extend(blocks::canonical_hashes_range(&walk, 2, 9));
    assert_eq!(found, blocks::canonical_hashes_range(&walk, 1, 9));
}

#[test]
fn hashes_and_blocks_go_together() {
    let (a, b, c) = (block(2, &[1]), block(1, &[2]), block(2, &[3]));
    let walk = [(hash(1), &a), (hash(2), &b), (hash(3), &c)];
    let found = blocks::block_range(&walk, &(1..=2));
    let bodies: Vec<Vec<u8>> =
        found.iter().map(|block| hashes(&block.body.transactions)).collect();
    assert_eq!(bodies, vec![vec![2], vec![1], vec![3]]);
    assert_eq!(blocks::canonical_hashes_range(&walk, 1, 3), vec![hash(2), hash(1), hash(3)]);
}

#[test]
fn range_of_distinct_numbers_is_the_same_on_every_walk() {
    let (a, b, c) = (block(3, &[1]), block(1, &[2]), block(2, &[3]));
    let there = [(hash(1), &a), (hash(2), &b), (hash(3), &c)];
    let back = [(hash(3), &c), (hash(2), &b), (hash(1), &a)];
    for walk in [&there, &back] {
        let found = blocks::block_range(walk, &(1..=3));
        let numbers: Vec<u64> = found.iter().map(|block| block.header.number).collect();
        assert_eq!(numbers, vec![1, 2, 3]);
        let found = blocks::canonical_hashes_range(walk, 1, 4);
        assert_eq!(found, vec![hash(2), hash(3), hash(1)]);
    }
}

#[test]
fn bodies_of_a_range_are_sorted() {
    let provider = filled();
    let found = provider.transactions_by_block_range(NumberRange::full()).unwrap();
    let bodies: Vec<Vec<u8>> = found.iter().map(|body| hashes(body)).collect();
    assert_eq!(bodies, vec![vec![11, 12], vec![], vec![31]]);
    let found = provider.transactions_by_block_range(NumberRange::half_open(2, 4)).unwrap();
    let bodies: Vec<Vec<u8>> = found.iter().map(|body| hashes(body)).collect();
    assert_eq!(bodies, vec![vec![], vec![31]]);
}

#[test]
fn last_body_of_a_number_stands_for_it() {
    let (a, b, c) = (block(2, &[1]), block(1, &[2]), block(2, &[3]));
    let walk = [(hash(1), &a), (hash(2), &b), (hash(3), &c)];
    let found = blocks::transactions_by_block_range(&walk, &NumberRange::full());
    let bodies: Vec<Vec<u8>> = found.iter().map(|body| hashes(body)).collect();
    assert_eq!(bodies, vec![vec![2], vec![3]]);
}

#[test]
fn first_block_of_a_number_on_a_walk() {
    let (a, b) = (block(2, &[1]), block(2, &[3]));
    let walk = [(hash(1), &a), (hash(3), &b)];
    assert_eq!(hashes(&blocks::block_by_number(&walk, 2).unwrap().body.transactions), vec![1]);
    assert_eq!(blocks::block_hash(&walk, 2), Some(hash(1)));
    assert_eq!(blocks::block_number(&walk, &hash(3)), Some(2));
    assert_eq!(blocks::block_number(&walk, &hash(4)), None);
}

#[test]
fn transactions_of_a_block() {
    let provider = filled();
    let by_hash = provider.transactions_by_block(BlockHashOrNumber::Hash(hash(1))).unwrap();
    assert_eq!(hashes(&by_hash.unwrap()), vec![11, 12]);
    let by_number = provider.transactions_by_block(BlockHashOrNumber::Number(3)).unwrap();
    assert_eq!(hashes(&by_number.unwrap()), vec![31]);
    assert!(provider.transactions_by_block(BlockHashOrNumber::Number(9)).unwrap().is_none());
}

#[test]
fn nothing_is_pending_safe_or_finalized() {
    let provider = filled();
    assert_eq!(provider.pending_block_num_hash(), Ok(None));
    assert_eq!(provider.safe_block_num_hash(), Ok(None));
    assert_eq!(provider.finalized_block_num_hash(), Ok(None));
    assert_eq!(provider.safe_block_hash(), Ok(None));
    assert_eq!(provider.finalized_block_hash(), Ok(None));
    assert!(provider.pending_block().unwrap().is_none());
    assert!(provider.pending_block_with_senders().unwrap().is_none());
    assert!(provider.pending_block_and_receipts().unwrap().is_none());
}

#[test]
fn no_senders_ommers_withdrawals_or_indices() {
    let provider = filled();
    let id = BlockHashOrNumber::Number(1);
    assert!(provider.block_with_senders(id, TransactionVariant::NoHash).unwrap().is_none());
    let sealed = provider.sealed_block_with_senders(id, TransactionVariant::WithHash);
    assert!(sealed.unwrap().is_none());
    assert!(provider.block_with_senders_range(0..=9).unwrap().is_empty());
    assert!(provider.sealed_block_with_senders_range(0..=9).unwrap().is_empty());
    assert!(provider.ommers(id).unwrap().is_none());
    assert!(provider.withdrawals_by_block(id, 0).unwrap().is_none());
    assert_eq!(provider.block_body_indices(1), Ok(None));
    assert_eq!(provider.block_body_indices_range(0..=9), Ok(vec![]));
}
