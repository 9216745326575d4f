//! An in-memory stand-in for an Ethereum chain database.

pub mod account;
pub mod block;
pub mod block_reader;
pub mod blocks;
pub mod data_laws;
pub mod error;
pub mod header;
pub mod header_provider;
pub mod headers;
pub mod laws;
pub mod node;
pub mod primitives;
pub mod provider;
pub mod query_laws;
pub mod range;
pub mod search;
pub mod state_provider;
pub mod store;
pub mod store_laws;
pub mod transaction;
pub mod transactions;
pub mod transactions_provider;
pub mod trie;
pub mod types;
