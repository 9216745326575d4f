use mock_eth_provider::block::ChainInfo;
use mock_eth_provider::error::ProviderError;
use mock_eth_provider::header::{Header, SealedHeader};
use mock_eth_provider::headers::{self, HeaderPredicate};
use mock_eth_provider::primitives::{B256, U256};
use mock_eth_provider::provider::MockEthProvider;
use mock_eth_provider::range::{Bound, NumberRange};

fn word(value: u64) -> U256 {
    U256 { limbs: [value, 0, 0, 0] }
}

fn hash(byte: u8) -> B256 {
    [byte; 32]
}

fn header(number: u64, difficulty: u64) -> Header {
    Header {
        parent_hash: [0; 32],
        ommers_hash: [0; 32],
        beneficiary: [0; 20],
        state_root: [0; 32],
        transactions_root: [0; 32],
        receipts_root: [0; 32],
        logs_bloom: [0; 256],
        difficulty: word(difficulty),
        number,
        gas_limit: 0,
        gas_used: 0,
        timestamp: 0,
        extra_data: Vec::new(),
        mix_hash: [0; 32],
        nonce: [0; 8],
        base_fee_per_gas: None,
        withdrawals_root: None,
        blob_gas_used: None,
        excess_blob_gas: None,
        parent_beacon_block_root: None,
        requests_hash: None,
    }
}

fn bytes32(text: &str) -> B256 {
    text.parse::<alloy_primitives::B256>().unwrap().0
}

fn mainnet_genesis() -> Header {
    let empty_root = bytes32("0x56e81f171bcc55a6ff8345e692c0f86e5b48e01b996cadc001622fb5e363b421");
    Header {
        ommers_hash: bytes32("0x1dcc4de8dec75d7aab85b567b6ccd41ad312451b948a7413f0a142fd40d49347"),
        state_root: bytes32("0xd7f8974fb5ac78d9ac099b9ad5018bedc2ce0a72dad1827a1709da30580f0544"),
        transactions_root: empty_root,
        receipts_root: empty_root,
        difficulty: word(0x400000000),
        gas_limit: 5000,
        extra_data: bytes32("0x11bbe8db4e347b4e8c937c1c8370e4b5ed33adb3db69cbdb7a38e1e50b1b82fa")
            .to_vec(),
        nonce: [0, 0, 0, 0, 0, 0, 0, 0x42],
        ..header(0, 0)
    }
}

fn filled() -> MockEthProvider {
    let mut provider: MockEthProvider = MockEthProvider::new();
    provider.extend_headers(vec![
        (hash(3), header(3, 300)),
        (hash(1), header(1, 100)),
        (hash(2), header(2, 200)),
    ]);
    provider
}

fn numbers(headers: &[Header]) -> Vec<u64> {
    headers.iter().map(|header| header.number).collect()
}

#[test]
fn header_is_read_back() {
    let mut provider: MockEthProvider = MockEthProvider::new();
    assert!(provider.header(&hash(7)).unwrap().is_none());
    provider.add_header(hash(7), header(9, 1));
    assert_eq!(provider.header(&hash(7)).unwrap().unwrap().number, 9);
    provider.add_header(hash(7), header(10, 1));
    assert_eq!(provider.header(&hash(7)).unwrap().unwrap().number, 10);
    assert!(provider.header(&hash(8)).unwrap().is_none());
}

#[test]
fn later_header_of_a_list_wins() {
    let mut provider: MockEthProvider = MockEthProvider::new();
    provider.extend_headers(vec![(hash(1), header(1, 0)), (hash(1), header(2, 0))]);
    assert_eq!(provider.header(&hash(1)).unwrap().unwrap().number, 2);
    assert!(provider.header_by_number(1).unwrap().is_none());
}

#[test]
fn header_by_number_finds_it() {
    let provider = filled();
    assert_eq!(provider.header_by_number(2).unwrap().unwrap().difficulty, word(200));
    assert!(provider.header_by_number(4).unwrap().is_none());
}

#[test]
fn first_of_equal_numbers_on_a_walk() {
    let (a, b) = (header(5, 1), header(5, 2));
    let found = headers::header_by_number(&[(hash(1), &a), (hash(2), &b)], 5).unwrap();
    assert_eq!(found.difficulty, word(1));
    let found = headers::header_by_number(&[(hash(2), &b), (hash(1), &a)], 5).unwrap();
    assert_eq!(found.difficulty, word(2));
}

#[test]
fn total_difficulty() {
    let provider = filled();
    assert_eq!(provider.header_td(&hash(1)).unwrap(), Some(word(100)));
    assert_eq!(provider.header_td(&hash(3)).unwrap(), Some(word(600)));
    assert_eq!(provider.header_td(&hash(9)).unwrap(), None);
    assert_eq!(provider.header_td_by_number(2).unwrap(), Some(word(300)));
    assert_eq!(provider.header_td_by_number(0).unwrap(), Some(word(0)));
    assert_eq!(provider.header_td_by_number(99).unwrap(), Some(word(600)));
}

#[test]
fn total_difficulty_by_hash_is_that_by_number() {
    let provider = filled();
    for (byte, number) in [(1, 1), (2, 2), (3, 3)] {
        assert_eq!(
            provider.header_td(&hash(byte)).unwrap(),
            provider.header_td_by_number(number).unwrap()
        );
    }
}

#[test]
fn total_difficulty_grows_with_the_number() {
    let provider = filled();
    let mut last = 0;
    for byte in [1, 2, 3] {
        let td = provider.header_td(&hash(byte)).unwrap().unwrap().limbs[0];
        assert_eq!(td, last + 100 * u64::from(byte));
        last = td;
    }
}

#[test]
fn total_difficulty_leaves_out_others_of_the_same_number() {
    let mut provider = filled();
    provider.add_header(hash(4), header(3, 7));
    assert_eq!(provider.header_td(&hash(4)).unwrap(), Some(word(307)));
    assert_eq!(provider.header_td(&hash(3)).unwrap(), Some(word(600)));
    assert_eq!(provider.header_td_by_number(3).unwrap(), Some(word(607)));
}

#[test]
fn total_difficulty_wraps_around() {
    let mut provider: MockEthProvider = MockEthProvider::new();
    let mut low = header(1, 0);
    low.difficulty = U256 { limbs: [u64::MAX; 4] };
    provider.add_header(hash(1), low);
    provider.add_header(hash(2), header(2, 3));
    assert_eq!(provider.header_td(&hash(2)).unwrap(), Some(word(2)));
    assert_eq!(provider.header_td_by_number(2).unwrap(), Some(word(2)));
}

#[test]
fn total_difficulty_is_the_same_on_every_walk() {
    let (a, b, c) = (header(1, 10), header(2, 20), header(3, 30));
    let target = header(3, 5);
    let expected = word(35);
    let there = [(hash(1), &a), (hash(2), &b), (hash(3), &c)];
    let back = [(hash(3), &c), (hash(2), &b), (hash(1), &a)];
    for walk in [&there, &back] {
        assert_eq!(headers::header_td(walk, &target), expected);
        assert_eq!(headers::header_td_by_number(walk, 3), word(60));
        assert_eq!(numbers(&headers::headers_range(walk, &NumberRange::full())), vec![1, 2, 3]);
        assert_eq!(headers::best_block_number(walk), Some(3));
    }
}

#[test]
fn headers_range_is_sorted() {
    let provider = filled();
    let all = provider.headers_range(NumberRange::full()).unwrap();
    assert_eq!(numbers(&all), vec![1, 2, 3]);
    let some = provider.headers_range(NumberRange::half_open(1, 3)).unwrap();
    assert_eq!(numbers(&some), vec![1, 2]);
    let above = NumberRange { start: Bound::Excluded(1), end: Bound::Included(3) };
    assert_eq!(numbers(&provider.headers_range(above).unwrap()), vec![2, 3]);
    let none = NumberRange { start: Bound::Included(3), end: Bound::Excluded(3) };
    assert!(provider.headers_range(none).unwrap().is_empty());
}

#[test]
fn headers_of_one_number_keep_the_order_of_the_walk() {
    let (a, b, c) = (header(2, 1), header(1, 2), header(2, 3));
    let walk = [(hash(1), &a), (hash(2), &b), (hash(3), &c)];
    let found = headers::headers_range(&walk, &NumberRange::full());
    let difficulties: Vec<U256> = found.iter().map(|header| header.difficulty).collect();
    assert_eq!(difficulties, vec![word(2), word(1), word(3)]);
}

#[test]
fn genesis_header_is_sealed_with_its_hash() {
    let mut provider: MockEthProvider = MockEthProvider::new();
    provider.add_header(hash(1), mainnet_genesis());
    let sealed = provider.sealed_header(0).unwrap().unwrap();
    assert_eq!(
        sealed.hash,
        bytes32("0xd4e56740f876aef8c010b86a40d5f56745a118d0906a34e69aec8c0db1cb8fa3")
    );
    assert_eq!(sealed.header.gas_limit, 5000);
    assert!(provider.sealed_header(1).unwrap().is_none());
}

#[test]
fn hash_covers_every_field() {
    let full = Header {
        base_fee_per_gas: Some(2),
        withdrawals_root: Some(hash(2)),
        blob_gas_used: Some(3),
        excess_blob_gas: Some(4),
        parent_beacon_block_root: Some(hash(3)),
        requests_hash: Some(hash(4)),
        ..mainnet_genesis()
    };
    let base = SealedHeader::seal_slow(full.clone()).hash;
    let mut changed = vec![full; 21];
    changed[0].parent_hash = hash(1);
    changed[1].ommers_hash = hash(1);
    changed[2].beneficiary = [1; 20];
    changed[3].state_root = hash(1);
    changed[4].transactions_root = hash(1);
    changed[5].receipts_root = hash(1);
    changed[6].logs_bloom[0] = 1;
    changed[7].difficulty = word(1);
    changed[8].number = 1;
    changed[9].gas_limit = 1;
    changed[10].gas_used = 1;
    changed[11].timestamp = 1;
    changed[12].extra_data = vec![1];
    changed[13].mix_hash = hash(1);
    changed[14].nonce = [1; 8];
    changed[15].base_fee_per_gas = Some(1);
    changed[16].withdrawals_root = Some(hash(1));
    changed[17].blob_gas_used = Some(1);
    changed[18].excess_blob_gas = Some(1);
    changed[19].parent_beacon_block_root = Some(hash(1));
    changed[20].requests_hash = Some(hash(1));
    let mut hashes: Vec<B256> =
        changed.into_iter().map(|header| SealedHeader::seal_slow(header).hash).collect();
    hashes.push(base);
    hashes.sort();
    hashes.dedup();
    assert_eq!(hashes.len(), 22);
}

#[test]
fn headers_are_sealed_while_the_predicate_holds() {
    let provider = filled();
    let mut asked = 0;
    let kept = provider
        .sealed_headers_while(NumberRange::full(), |sealed: &SealedHeader| {
            asked += 1;
            sealed.header.number < 2
        })
        .unwrap();
    assert_eq!(asked, 2);
    assert_eq!(kept.len(), 1);
    assert_eq!(kept[0].header.number, 1);
    assert_eq!(kept[0].hash, SealedHeader::seal_slow(header(1, 100)).hash);
    let all = provider.sealed_headers_while(NumberRange::full(), |_: &SealedHeader| true).unwrap();
    assert_eq!(all.len(), 3);
}

#[test]
fn predicate_is_asked_in_order_and_once() {
    let provider = filled();
    let mut asked = Vec::new();
    let mut predicate = HeaderPredicate::new(|sealed: &SealedHeader| {
        asked.push(sealed.header.number);
        sealed.header.number != 2
    });
    let kept =
        provider.sealed_headers_while_asking(NumberRange::full(), &mut predicate).unwrap();
    assert_eq!(kept.len(), 1);
    let list = vec![header(7, 0), header(5, 0)];
    assert_eq!(headers::sealed_headers_while(list, &mut predicate).len(), 2);
    assert!(predicate.accepts(&SealedHeader::seal_slow(header(9, 0))));
    assert_eq!(asked, vec![1, 2, 7, 5, 9]);
}

#[test]
fn best_block() {
    let provider = filled();
    assert_eq!(provider.best_block_number(), Ok(3));
    assert_eq!(provider.last_block_number(), Ok(3));
    assert_eq!(provider.chain_info(), Ok(ChainInfo { best_hash: hash(3), best_number: 3 }));
}

#[test]
fn best_block_of_an_empty_provider_is_not_found() {
    let provider: MockEthProvider = MockEthProvider::new();
    assert_eq!(provider.best_block_number(), Err(ProviderError::BestBlockNotFound));
    assert_eq!(provider.last_block_number(), Err(ProviderError::BestBlockNotFound));
    assert_eq!(provider.chain_info(), Err(ProviderError::BestBlockNotFound));
}

#[test]
fn chain_info_without_a_match_is_zero() {
    let a = header(1, 1);
    assert_eq!(
        headers::chain_info(&[(hash(1), &a)], 2),
        ChainInfo { best_hash: [0; 32], best_number: 0 }
    );
}
