use mock_eth_provider::block::{Block, BlockBody, BlockHashOrNumber};
use mock_eth_provider::header::Header;
use mock_eth_provider::primitives::{Address, B256, U256};
use mock_eth_provider::provider::MockEthProvider;
use mock_eth_provider::range::{Bound, NumberRange};
use mock_eth_provider::transaction::{
    Signature, SignedTransaction, SignerError, TransactionMeta, TransactionSigned,
};
use mock_eth_provider::transactions;

fn hash(byte: u8) -> B256 {
    [byte; 32]
}

fn header(number: u64) -> Header {
    Header {
        parent_hash: [0; 32],
        ommers_hash: [0; 32],
        beneficiary: [0; 20],
        state_root: [0; 32],
        transactions_root: [0; 32],
        receipts_root: [0; 32],
        logs_bloom: [0; 256],
        difficulty: U256 { limbs: [0; 4] },
        number,
        gas_limit: 0,
        gas_used: 0,
        timestamp: 1000 + number,
        extra_data: Vec::new(),
        mix_hash: [0; 32],
        nonce: [0; 8],
        base_fee_per_gas: Some(7),
        withdrawals_root: None,
        blob_gas_used: None,
        excess_blob_gas: Some(8),
        parent_beacon_block_root: None,
        requests_hash: None,
    }
}

fn decimal(text: &str) -> U256 {
    U256 { limbs: text.parse::<alloy_primitives::U256>().unwrap().into_limbs() }
}

/// The signed transaction that EIP-155 gives as its example.
fn signed(byte: u8) -> TransactionSigned {
    let signature_hash = "0xdaf5a779ae972f972197303d7b574746c7ef83eadac0f2791ad23db92e4c8e53"
        .parse::<alloy_primitives::B256>()
        .unwrap();
    TransactionSigned {
        hash: hash(byte),
        signature_hash: signature_hash.0,
        signature: Signature {
            r: decimal("18515461264373351373200002665853028612451056578545711640558177340181847433846"),
            s: decimal("46948507304638947509940763649030358759909902576025900602547168820602576006531"),
            odd_y_parity: false,
        },
        encoded: vec![byte, byte],
    }
}

fn signer() -> Address {
    "0x9d8A62f656a8d1615C1294fd71e9CFb3E4855A4F".parse::<alloy_primitives::Address>().unwrap().into()
}

/// A transaction whose signature has an `s` above half the order of the curve.
fn unrecoverable(byte: u8) -> TransactionSigned {
    let mut tx = signed(byte);
    tx.signature.s = U256 {
        limbs: [0xDFE92F46681B20A1, 0x5D576E7357A4501D, u64::MAX, 0x7FFFFFFFFFFFFFFF],
    };
    tx
}

fn block(number: u64, transactions: Vec<TransactionSigned>) -> Block<TransactionSigned> {
    Block {
        header: header(number),
        body: BlockBody { transactions, ommers: Vec::new(), withdrawals: None },
    }
}

fn hashes(transactions: &[TransactionSigned]) -> Vec<u8> {
    transactions.iter().map(|tx| tx.hash[0]).collect()
}

fn one_block() -> MockEthProvider {
    let mut provider: MockEthProvider = MockEthProvider::new();
    provider.add_block(hash(9), block(5, vec![signed(1), unrecoverable(2), signed(3)]));
    provider
}

#[test]
fn number_of_a_transaction() {
    let provider = one_block();
    assert_eq!(provider.transaction_id(hash(1)), Ok(Some(0)));
    assert_eq!(provider.transaction_id(hash(3)), Ok(Some(2)));
    assert_eq!(provider.transaction_id(hash(4)), Ok(None));
}

#[test]
fn transaction_by_number() {
    let provider = one_block();
    let tx = provider.transaction_by_id(1).unwrap().unwrap();
    assert_eq!(tx.hash, hash(2));
    assert_eq!(tx.encoded, vec![2, 2]);
    assert_eq!(provider.transaction_by_id_unhashed(2).unwrap().unwrap().hash, hash(3));
    assert!(provider.transaction_by_id(3).unwrap().is_none());
    assert!(provider.transaction_by_id_unhashed(u64::MAX).unwrap().is_none());
}

#[test]
fn number_and_hash_lead_to_each_other() {
    let provider = one_block();
    for byte in [1, 2, 3] {
        let id = provider.transaction_id(hash(byte)).unwrap().unwrap();
        assert_eq!(provider.transaction_by_id(id).unwrap().unwrap().hash, hash(byte));
        assert_eq!(provider.transaction_by_hash(hash(byte)).unwrap().unwrap().hash, hash(byte));
    }
}

#[test]
fn numbers_run_on_from_block_to_block() {
    let (a, b, c) =
        (block(7, vec![signed(1), signed(2)]), block(3, vec![]), block(5, vec![signed(3)]));
    let walk = [(hash(7), &a), (hash(3), &b), (hash(5), &c)];
    assert_eq!(transactions::transaction_id(&walk, &hash(3)), Some(2));
    assert_eq!(transactions::transaction_by_id(&walk, 2).unwrap().hash, hash(3));
    assert_eq!(transactions::transaction_block(&walk, 0), Some(7));
    assert_eq!(transactions::transaction_block(&walk, 1), Some(7));
    assert_eq!(transactions::transaction_block(&walk, 2), Some(5));
    assert_eq!(transactions::transaction_block(&walk, 3), None);
    assert_eq!(transactions::transaction_block(&walk, u64::MAX), None);
    let back = [(hash(5), &c), (hash(3), &b), (hash(7), &a)];
    assert_eq!(transactions::transaction_id(&back, &hash(3)), Some(0));
    assert_eq!(transactions::transaction_block(&back, 0), Some(5));
}

#[test]
fn first_of_equal_hashes_is_found() {
    let mut second = signed(1);
    second.encoded = vec![77];
    let (a, b) = (block(1, vec![signed(2)]), block(2, vec![signed(1), second]));
    let walk = [(hash(1), &a), (hash(2), &b)];
    assert_eq!(transactions::transaction_id(&walk, &hash(1)), Some(1));
    assert_eq!(transactions::transaction_by_hash(&walk, &hash(1)).unwrap().encoded, vec![1, 1]);
    let (tx, meta) = transactions::transaction_by_hash_with_meta(&walk, hash(1)).unwrap();
    assert_eq!(tx.encoded, vec![1, 1]);
    assert_eq!(meta.index, 0);
    assert_eq!(meta.block_hash, hash(2));
}

#[test]
fn transaction_by_hash_is_found_or_not() {
    let provider = one_block();
    assert_eq!(provider.transaction_by_hash(hash(2)).unwrap().unwrap().encoded, vec![2, 2]);
    assert!(provider.transaction_by_hash(hash(9)).unwrap().is_none());
}

#[test]
fn transaction_comes_with_its_place() {
    let provider = one_block();
    let (tx, meta) = provider.transaction_by_hash_with_meta(hash(3)).unwrap().unwrap();
    assert_eq!(tx.hash, hash(3));
    assert_eq!(
        meta,
        TransactionMeta {
            tx_hash: hash(3),
            index: 2,
            block_hash: hash(9),
            block_number: 5,
            base_fee: Some(7),
            excess_blob_gas: Some(8),
            timestamp: 1005,
        }
    );
    assert!(provider.transaction_by_hash_with_meta(hash(4)).unwrap().is_none());
}

#[test]
fn block_of_a_transaction() {
    let provider = one_block();
    assert_eq!(provider.transaction_block(0), Ok(Some(5)));
    assert_eq!(provider.transaction_block(2), Ok(Some(5)));
    assert_eq!(provider.transaction_block(3), Ok(None));
    let empty: MockEthProvider = MockEthProvider::new();
    assert_eq!(empty.transaction_block(0), Ok(None));
}

#[test]
fn transactions_of_a_range_of_numbers() {
    let provider = one_block();
    let all = provider.transactions_by_tx_range(NumberRange::full()).unwrap();
    assert_eq!(hashes(&all), vec![1, 2, 3]);
    let some = provider.transactions_by_tx_range(NumberRange::half_open(1, 9)).unwrap();
    assert_eq!(hashes(&some), vec![2, 3]);
    let one = NumberRange { start: Bound::Excluded(0), end: Bound::Included(1) };
    assert_eq!(hashes(&provider.transactions_by_tx_range(one).unwrap()), vec![2]);
    assert!(provider.transactions_by_tx_range(NumberRange::half_open(5, 9)).unwrap().is_empty());
}

#[test]
fn signer_is_recovered() {
    assert_eq!(signed(1).recover_signer(), Ok(signer()));
    assert_eq!(unrecoverable(1).recover_signer(), Err(SignerError));
}

#[test]
fn other_parity_gives_another_signer() {
    let mut tx = signed(1);
    tx.signature.odd_y_parity = true;
    assert_ne!(tx.recover_signer(), Ok(signer()));
}

#[test]
fn other_hash_gives_another_signer() {
    let mut tx = signed(1);
    tx.signature_hash = hash(1);
    assert_ne!(tx.recover_signer(), Ok(signer()));
}

#[test]
fn zero_signature_is_not_recovered() {
    let mut tx = signed(1);
    tx.signature.r = U256 { limbs: [0; 4] };
    assert_eq!(tx.recover_signer(), Err(SignerError));
}

#[test]
fn senders_leave_out_what_is_not_recovered() {
    let provider = one_block();
    assert_eq!(provider.senders_by_tx_range(NumberRange::full()), Ok(vec![signer(), signer()]));
    assert_eq!(provider.senders_by_tx_range(NumberRange::half_open(1, 2)), Ok(vec![]));
    assert_eq!(provider.senders_by_tx_range(NumberRange::half_open(2, 3)), Ok(vec![signer()]));
}

#[test]
fn sender_of_a_transaction() {
    let provider = one_block();
    assert_eq!(provider.transaction_sender(0), Ok(Some(signer())));
    assert_eq!(provider.transaction_sender(3), Ok(None));
    assert_eq!(provider.try_transaction_sender(0), Ok(Ok(Some(signer()))));
    assert_eq!(provider.try_transaction_sender(1), Ok(Err(SignerError)));
    assert_eq!(provider.try_transaction_sender(3), Ok(Ok(None)));
}

#[test]
fn no_receipts() {
    let provider = one_block();
    assert!(provider.receipt(0).unwrap().is_none());
    assert!(provider.receipt_by_hash(hash(1)).unwrap().is_none());
    assert!(provider.receipts_by_block(BlockHashOrNumber::Number(5)).unwrap().is_none());
    assert!(provider.receipts_by_tx_range(NumberRange::full()).unwrap().is_empty());
}
