//! The types that make up a node which runs on the provider.

use crate::provider::MockEthProvider;
use crate::types::ChainSpec;
use vstd::prelude::*;

verus! {

/// The types that make up a node.
pub trait NodeTypes {
    /// The primitive types: blocks, transactions and receipts.
    type Primitives;

    /// The chain specification.
    type ChainSpec;

    /// How the state is committed to.
    type StateCommitment;

    /// How the chain is stored.
    type Storage;
}

/// The primitive types of Ethereum.
#[derive(Debug)]
pub struct EthPrimitives;

/// Commits to the state with a Merkle Patricia trie.
#[derive(Debug)]
pub struct MerklePatriciaTrie;

/// Stores an Ethereum chain.
#[derive(Debug)]
pub struct EthStorage;

/// A node that runs on a mock provider.
#[derive(Debug)]
pub struct MockNode;

impl NodeTypes for MockNode {
    type Primitives = EthPrimitives;

    type ChainSpec = ChainSpec;

    type StateCommitment = MerklePatriciaTrie;

    type Storage = EthStorage;
}

/// Knows how the state is committed to.
pub trait StateCommitmentProvider {
    /// How the state is committed to.
    type StateCommitment;
}

impl<T, C> StateCommitmentProvider for MockEthProvider<T, C> {
    type StateCommitment = <MockNode as NodeTypes>::StateCommitment;
}

/// Knows the primitive types of the node.
pub trait NodePrimitivesProvider {
    /// The primitive types.
    type Primitives;
}

impl<T, C> NodePrimitivesProvider for MockEthProvider<T, C> {
    type Primitives = EthPrimitives;
}

} // verus!
