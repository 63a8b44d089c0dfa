//! Indexer core for a BRC-20-style token protocol on a UTXO chain.
//!
//! The crate holds the deterministic token state machine and its storage
//! model: fixed-point amounts, payload validation, the per-block token
//! interpreter, the holders index, history id assignment, the
//! proof-of-history chain, and the reorg journal.

pub mod errors;
pub mod fixed;
pub mod hashing;
pub mod history;
pub mod holders;
pub mod interpreter;
pub mod laws;
pub mod params;
pub mod pipeline;
pub mod poh;
pub mod proto;
pub mod reorg;
pub mod searcher;
pub mod store;
pub mod types;
pub mod vecmap;
