use mock_eth_provider::account::{Account, Bytecode, ExtendedAccount, InvalidBytecode};
use mock_eth_provider::block::BlockNumberOrTag;
use mock_eth_provider::error::{ConsistentViewError, GotExpected, ProviderError};
use mock_eth_provider::node::{MockNode, NodeTypes};
use mock_eth_provider::primitives::{B256, U256};
use mock_eth_provider::provider::MockEthProvider;
use mock_eth_provider::transaction::TransactionSigned;
use mock_eth_provider::trie::{
    HashedPostState, HashedStorage, MultiProofTargets, Nibbles, TrieInput, TrieUpdates,
};
use mock_eth_provider::types::{ChainSpec, PruneModes, StageId};
use std::sync::Arc;

fn word(value: u64) -> U256 {
    U256 { limbs: [value, 0, 0, 0] }
}

fn hash(byte: u8) -> B256 {
    [byte; 32]
}

fn empty_root() -> B256 {
    "0x56e81f171bcc55a6ff8345e692c0f86e5b48e01b996cadc001622fb5e363b421"
        .parse::<alloy_primitives::B256>()
        .unwrap()
        .0
}

fn trie_input() -> TrieInput {
    TrieInput { nodes: TrieUpdates::default(), state: HashedPostState::default() }
}

fn hashed_storage() -> HashedStorage {
    HashedStorage { wiped: false, storage: Default::default() }
}

#[test]
fn new_provider_is_empty() {
    for provider in [MockEthProvider::<TransactionSigned>::new(), MockEthProvider::default()] {
        assert!(provider.blocks.is_empty());
        assert!(provider.headers.is_empty());
        assert!(provider.accounts.is_empty());
        assert!(provider.state_roots.is_empty());
        assert_eq!(provider.chain_spec(), Arc::new(ChainSpec { chain: 1 }));
        assert!(provider.tx_ref().table.is_empty());
        assert_eq!(*provider.prune_modes_ref(), PruneModes::default());
    }
}

#[test]
fn chain_spec_is_replaced_and_the_rest_kept() {
    let mut provider: MockEthProvider = MockEthProvider::new();
    provider.add_state_root(hash(4));
    provider.add_account([1; 20], ExtendedAccount::new(3, word(5)));
    let provider: MockEthProvider<TransactionSigned, u8> = provider.with_chain_spec(77);
    assert_eq!(*provider.chain_spec(), 77);
    assert_eq!(provider.state_roots, vec![hash(4)]);
    assert_eq!(provider.basic_account(&[1; 20]).unwrap().unwrap().nonce, 3);
}

#[test]
fn database_transaction_is_lent_and_given() {
    let mut provider: MockEthProvider = MockEthProvider::new();
    provider.tx_mut().table.push((String::from("key"), vec![1]));
    assert_eq!(provider.tx_ref().table.len(), 1);
    assert_eq!(provider.into_tx().table[0].1, vec![1]);
}

#[test]
fn account_is_read_back() {
    let mut provider: MockEthProvider = MockEthProvider::new();
    provider.extend_accounts(vec![
        ([1; 20], ExtendedAccount::new(1, word(10))),
        ([2; 20], ExtendedAccount::new(2, word(20))),
        ([1; 20], ExtendedAccount::new(3, word(30))),
    ]);
    assert_eq!(
        provider.basic_account(&[1; 20]),
        Ok(Some(Account { nonce: 3, balance: word(30), bytecode_hash: None }))
    );
    assert_eq!(provider.basic_account(&[2; 20]).unwrap().unwrap().nonce, 2);
    assert_eq!(provider.basic_account(&[3; 20]), Ok(None));
}

#[test]
fn storage_is_read_back() {
    let mut provider: MockEthProvider = MockEthProvider::new();
    let account = ExtendedAccount::new(0, word(0))
        .extend_storage(vec![(hash(1), word(1)), (hash(2), word(2)), (hash(1), word(3))])
        .extend_storage(vec![(hash(2), word(4))]);
    provider.add_account([1; 20], account.clone());
    assert_eq!(provider.storage([1; 20], hash(1)), Ok(Some(word(3))));
    assert_eq!(provider.storage([1; 20], hash(2)), Ok(Some(word(4))));
    assert_eq!(provider.storage([1; 20], hash(3)), Ok(None));
    assert_eq!(provider.storage([2; 20], hash(1)), Ok(None));
    assert_eq!(account.slot(&hash(1)), Some(word(3)));
}

#[test]
fn code_is_found_by_its_hash() {
    let mut provider: MockEthProvider = MockEthProvider::new();
    let raw = vec![0x60, 0x01, 0x5b];
    let code_hash = alloy_primitives::keccak256(&raw).0;
    provider.add_account([1; 20], ExtendedAccount::new(0, word(0)));
    provider.add_account([2; 20], ExtendedAccount::new(5, word(0)).with_bytecode(raw.clone()));
    let account = provider.basic_account(&[2; 20]).unwrap().unwrap();
    assert_eq!(account.nonce, 5);
    assert_eq!(account.bytecode_hash, Some(code_hash));
    let mut padded = raw;
    padded.extend([0; 33]);
    assert_eq!(
        provider.bytecode_by_hash(&code_hash),
        Ok(Some(Bytecode::LegacyAnalyzed {
            bytecode: padded,
            original_len: 3,
            jump_table: vec![0b100, 0, 0, 0, 0],
        }))
    );
    assert_eq!(provider.bytecode_by_hash(&hash(1)), Ok(None));
}

#[test]
fn later_code_replaces_earlier_code() {
    let account = ExtendedAccount::new(0, word(0))
        .with_bytecode(vec![1])
        .extend_storage(vec![(hash(1), word(1))])
        .with_bytecode(vec![2]);
    let first = alloy_primitives::keccak256([1]).0;
    let second = alloy_primitives::keccak256([2]).0;
    assert_eq!(account.account().bytecode_hash, Some(second));
    assert!(account.code_with_hash(&first).is_none());
    assert!(account.code_with_hash(&second).is_some());
    assert_eq!(account.slot(&hash(1)), Some(word(1)));
}

#[test]
fn empty_code_is_padded() {
    let account = ExtendedAccount::new(0, word(0)).with_bytecode(vec![]);
    let code_hash = alloy_primitives::keccak256([]).0;
    assert_eq!(
        account.code_with_hash(&code_hash),
        Some(Bytecode::LegacyAnalyzed {
            bytecode: vec![0; 33],
            original_len: 0,
            jump_table: vec![0; 5],
        })
    );
}

#[test]
fn delegation_is_decoded() {
    let mut raw = vec![0xef, 0x01, 0x00];
    raw.extend([7; 20]);
    let code_hash = alloy_primitives::keccak256(&raw).0;
    let account = ExtendedAccount::new(0, word(0)).try_with_bytecode(raw.clone()).unwrap();
    assert_eq!(
        account.code_with_hash(&code_hash),
        Some(Bytecode::Eip7702 { delegated_address: [7; 20], version: 0, raw })
    );
}

#[test]
fn container_is_decoded() {
    let raw = revm_bytecode::Eof::default().raw().to_vec();
    assert_eq!(Bytecode::try_new_raw(&raw), Ok(Bytecode::Eof { raw: raw.clone() }));
}

#[test]
fn invalid_code_is_refused() {
    let mut version_one = vec![0xef, 0x01, 0x01];
    version_one.extend([7; 20]);
    for raw in [vec![0xef, 0x00], vec![0xef, 0x01], version_one] {
        assert_eq!(Bytecode::try_new_raw(&raw), Err(InvalidBytecode));
        let refused = ExtendedAccount::new(0, word(0)).try_with_bytecode(raw);
        assert_eq!(refused.unwrap_err(), InvalidBytecode);
    }
    assert!(Bytecode::try_new_raw(&vec![0xef]).is_ok());
}

#[test]
fn state_roots_are_a_stack() {
    let mut provider: MockEthProvider = MockEthProvider::new();
    for byte in [1, 2, 3, 4] {
        provider.add_state_root(hash(byte));
    }
    assert_eq!(provider.state_root(HashedPostState::default()), Ok(hash(4)));
    assert_eq!(provider.state_root_from_nodes(trie_input()), Ok(hash(3)));
    let (root, updates) = provider.state_root_with_updates(HashedPostState::default()).unwrap();
    assert_eq!(root, hash(2));
    assert!(updates.account_nodes.is_empty() && updates.removed_nodes.is_empty());
    assert!(updates.storage_tries.is_empty());
    let (root, updates) = provider.state_root_from_nodes_with_updates(trie_input()).unwrap();
    assert_eq!(root, hash(1));
    assert!(updates.account_nodes.is_empty());
    assert_eq!(provider.state_root(HashedPostState::default()), Ok(hash(0)));
    assert!(provider.state_roots.is_empty());
}

#[test]
fn storage_root_is_that_of_an_empty_trie() {
    let provider: MockEthProvider = MockEthProvider::new();
    assert_eq!(provider.storage_root([1; 20], hashed_storage()), Ok(empty_root()));
}

#[test]
fn storage_proof_starts_at_the_hashed_slot() {
    let provider: MockEthProvider = MockEthProvider::new();
    let started = provider.storage_proof([1; 20], hash(0), hashed_storage()).unwrap();
    assert_eq!(started.key, hash(0));
    assert_eq!(started.value, word(0));
    assert!(started.proof_nodes.is_empty());
    let digits: String = started.nibbles.0.iter().map(|digit| format!("{:x}", digit)).collect();
    assert_eq!(digits, "290decd9548b62a8d60345a988386fc84ba6bc95484008f6362f93160ef3e563");
}

#[test]
fn digits_of_a_hash() {
    let mut bytes = hash(0);
    bytes[0] = 0xab;
    bytes[31] = 0x0f;
    let path = Nibbles::unpack(&bytes).0;
    assert_eq!(path.len(), 64);
    assert_eq!((path[0], path[1], path[62], path[63]), (0xa, 0xb, 0x0, 0xf));
}

#[test]
fn proofs_are_empty() {
    let provider: MockEthProvider = MockEthProvider::new();
    let storage = provider.storage_multiproof([1; 20], &[hash(1)], hashed_storage()).unwrap();
    assert_eq!(storage.root, empty_root());
    assert_eq!(storage.subtree, vec![(Nibbles(vec![]), vec![0x80])]);
    let account = provider.account_proof(trie_input(), [3; 20], &[hash(1)]).unwrap();
    assert_eq!(account.address, [3; 20]);
    assert_eq!(account.info, None);
    assert_eq!(account.storage_root, empty_root());
    assert!(account.proof_nodes.is_empty() && account.storage_proofs.is_empty());
    let targets = MultiProofTargets(Default::default());
    let several = provider.multiproof(trie_input(), targets).unwrap();
    assert!(several.account_subtree.is_empty() && several.storages.is_empty());
    assert!(provider.witness(trie_input(), HashedPostState::default()).unwrap().is_empty());
}

#[test]
fn bundle_of_changes_hashes_to_nothing() {
    let provider: MockEthProvider = MockEthProvider::new();
    let state = provider.hashed_post_state(&revm_database::BundleState::default());
    assert!(state.accounts.is_empty() && state.storages.is_empty());
}

#[test]
fn state_is_the_provider_itself() {
    let mut provider: MockEthProvider = MockEthProvider::new();
    provider.add_account([1; 20], ExtendedAccount::new(9, word(0)));
    let states = [
        provider.latest(),
        provider.pending(),
        provider.history_by_block_number(4),
        provider.history_by_block_hash(hash(1)),
        provider.state_by_block_hash(hash(1)),
        provider.state_by_block_number_or_tag(BlockNumberOrTag::Latest),
        provider.state_by_block_number_or_tag(BlockNumberOrTag::Earliest),
        provider.state_by_block_number_or_tag(BlockNumberOrTag::Pending),
        provider.state_by_block_number_or_tag(BlockNumberOrTag::Number(3)),
    ];
    for state in states {
        assert_eq!(state.unwrap().basic_account(&[1; 20]).unwrap().unwrap().nonce, 9);
    }
    assert!(provider.pending_state_by_hash(hash(1)).unwrap().is_some());
}

#[test]
fn state_shows_what_was_added_later() {
    let mut provider: MockEthProvider = MockEthProvider::new();
    let tag = BlockNumberOrTag::Number(3);
    let state = provider.state_by_block_number_or_tag(tag).unwrap();
    assert_eq!(state.basic_account(&[1; 20]), Ok(None));
    provider.add_account([1; 20], ExtendedAccount::new(9, word(0)));
    let state = provider.state_by_block_number_or_tag(tag).unwrap();
    assert_eq!(state.basic_account(&[1; 20]).unwrap().unwrap().nonce, 9);
}

#[test]
fn state_that_is_kept_shares_the_stores() {
    let mut provider: MockEthProvider = MockEthProvider::new();
    let state = provider.live_state_by_block_number_or_tag(BlockNumberOrTag::Number(3)).unwrap();
    assert_eq!(state.basic_account(&[1; 20]), Ok(None));
    let account = ExtendedAccount::new(9, word(0))
        .with_bytecode(vec![1])
        .extend_storage(vec![(hash(1), word(5))]);
    state.extend_accounts(vec![([1; 20], account)]);
    let code_hash = alloy_primitives::keccak256([1]).0;
    let seen = (
        state.basic_account(&[1; 20]),
        state.storage([1; 20], hash(1)),
        state.bytecode_by_hash(&code_hash),
    );
    assert_eq!(seen.1, Ok(Some(word(5))));
    assert_eq!(provider.basic_account(&[1; 20]), seen.0);
    assert_eq!(provider.storage([1; 20], hash(1)), seen.1);
    assert_eq!(provider.bytecode_by_hash(&code_hash), seen.2);
}

#[test]
fn kept_state_at_the_finalized_or_safe_block_is_not_found() {
    let mut provider: MockEthProvider = MockEthProvider::new();
    assert_eq!(
        provider.live_state_by_block_number_or_tag(BlockNumberOrTag::Finalized).unwrap_err(),
        ProviderError::FinalizedBlockNotFound
    );
    assert_eq!(
        provider.live_state_by_block_number_or_tag(BlockNumberOrTag::Safe).unwrap_err(),
        ProviderError::SafeBlockNotFound
    );
}

#[test]
fn finalized_and_safe_state_are_not_found() {
    let provider: MockEthProvider = MockEthProvider::new();
    assert_eq!(
        provider.state_by_block_number_or_tag(BlockNumberOrTag::Finalized).unwrap_err(),
        ProviderError::FinalizedBlockNotFound
    );
    assert_eq!(
        provider.state_by_block_number_or_tag(BlockNumberOrTag::Safe).unwrap_err(),
        ProviderError::SafeBlockNotFound
    );
}

#[test]
fn database_provider_counts_as_syncing() {
    let provider: MockEthProvider = MockEthProvider::new();
    let syncing = ProviderError::ConsistentView(ConsistentViewError::Syncing {
        best_block: GotExpected { got: 0, expected: 0 },
    });
    assert_eq!(provider.database_provider_ro().unwrap_err(), syncing);
    assert_eq!(provider.database_provider_rw().unwrap_err(), syncing);
}

#[test]
fn no_checkpoints_changes_or_outcomes() {
    let provider: MockEthProvider = MockEthProvider::new();
    assert_eq!(provider.get_stage_checkpoint(StageId::Headers), Ok(None));
    assert_eq!(provider.get_stage_checkpoint_progress(StageId::Finish), Ok(None));
    assert_eq!(provider.get_all_checkpoints(), Ok(vec![]));
    assert_eq!(provider.account_block_changeset(1), Ok(vec![]));
    assert!(provider.get_state(1).unwrap().is_none());
}

#[test]
fn canonical_chain_never_changes() {
    let provider: MockEthProvider = MockEthProvider::new();
    let mut changes = provider.subscribe_to_canonical_state();
    assert_eq!(changes.len(), 0);
    assert_eq!(changes.sender_strong_count(), 0);
    assert!(changes.is_closed());
    assert!(matches!(
        changes.try_recv(),
        Err(tokio::sync::broadcast::error::TryRecvError::Closed)
    ));
}

#[test]
fn mock_node_runs_on_a_chain_spec() {
    fn spec_of<N: NodeTypes<ChainSpec = ChainSpec>>(_node: N) -> ChainSpec {
        ChainSpec::mainnet()
    }
    assert_eq!(spec_of(MockNode).chain, 1);
}
