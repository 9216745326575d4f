# mock_eth_provider

An in-memory stand-in for the database of an Ethereum node: it stores blocks, headers, accounts
and state roots, and answers the questions that a node asks of its database.

- `src/provider.rs` holds `MockEthProvider`, its stores and how they are filled.
- `src/header_provider.rs`, `src/block_reader.rs`, `src/transactions_provider.rs` and
  `src/state_provider.rs` read from it.
- `src/headers.rs`, `src/blocks.rs` and `src/transactions.rs` answer questions on a *walk*: the
  entries of a hash map in the order in which they happened to be visited. What does not depend on
  that order is stated of the map; what does is stated for the walk.
- `src/account.rs` holds `ExtendedAccount`, an account with its code and storage.
- `src/laws.rs` relates the operations to each other.
- `app/` shares a provider between handles, behind a lock, and converts from and to the types of
  the `alloy` crates.
