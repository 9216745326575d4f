//! Errors of the provider.

use crate::primitives::opt_view;
use vstd::prelude::*;

verus! {

/// A value, and the value that was expected in its place.
#[derive(Debug, Clone, Copy, PartialEq, Eq, Structural)]
pub struct GotExpected {
    pub got: u64,
    pub expected: u64,
}

/// A consistent view of the database could not be opened.
#[derive(Debug, Clone, Copy, PartialEq, Eq, Structural)]
pub enum ConsistentViewError {
    /// The node is syncing.
    Syncing { best_block: GotExpected },
}

/// What can go wrong in the provider.
#[derive(Debug, Clone, Copy, PartialEq, Eq, Structural)]
pub enum ProviderError {
    /// No header is stored.
    BestBlockNotFound,
    /// There is no finalized block.
    FinalizedBlockNotFound,
    /// There is no safe block.
    SafeBlockNotFound,
    /// A consistent view could not be opened.
    ConsistentView(ConsistentViewError),
}

/// The outcome of a request to the provider.
pub type ProviderResult<A> = Result<A, ProviderError>;

/// The outcome of a lookup, with the view of what was found.
pub open spec fn found_view<V: View>(found: ProviderResult<Option<V>>) -> ProviderResult<
    Option<V::V>,
> {
    match found {
        Ok(value) => Ok(opt_view(value)),
        Err(error) => Err(error),
    }
}

} // verus!
