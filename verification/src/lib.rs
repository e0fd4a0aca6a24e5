//! Verified read layer for an account-based ledger's settlement history.
//!
//! The crate models the backing store's tables as in-memory collections and
//! verifies the logic that reads them: cursor-stable pagination over the two
//! event partitions (ordinary transactions and priority operations), lazy
//! range-membership status resolution, the address-to-transaction filter
//! index, batch status aggregation, and token symbol enrichment.

use vstd::prelude::*;

pub mod account;
pub mod batch;
pub mod codec;
pub mod enrich;
pub mod filter_index;
pub mod history;
pub mod lookups;
pub mod merge;
pub mod records;
pub mod schema;
pub mod status;
pub mod web3;

verus! {

/// Direction to perform search of transactions to.
#[derive(Debug, Clone, Copy, PartialEq, Eq, Structural)]
pub enum SearchDirection {
    /// Find transactions older than specified one.
    Older,
    /// Find transactions newer than specified one.
    Newer,
}

} // verus!
