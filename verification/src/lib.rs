//! A registry of unique digital collectibles ("kitties"), their genetic
//! derivation through breeding, and a small marketplace that moves them
//! against an internal balance ledger.
//!
//! The crate is a deterministic state-transition core: an external
//! dispatcher authenticates callers, totally orders calls, supplies the
//! random bytes each operation consumes, and emits notifications on
//! success. Those collaborators stay outside; everything here is pure
//! state manipulation with a proved contract.

pub mod errors;
pub mod genome;
pub mod store;
pub mod tables;
