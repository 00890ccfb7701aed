//! Client-side optimistic cache for a shared expense ledger.
//!
//! Locally created expenses are counted at once and matched later against the
//! authority's confirmations and revocations; the cache answers summary and
//! paging queries from incrementally maintained statistics.

pub mod records;
pub mod stats;
pub mod store;
pub mod protocol;
mod clock;
pub mod db_view;
pub mod laws;
pub mod pseudo_upstream;
