//! In-memory tracking of the not-yet-persisted suffix of a canonical
//! blockchain, together with a small transactional key/value layer that
//! models the base storage engine's access modes.
//!
//! The crate keeps the set of executed blocks that are part of the canonical
//! chain but have not been durably written to the base storage engine yet.
//! It reconciles chain extension, reorganizations, and persistence pruning
//! with the view exposed to readers.

pub mod assoc;
pub mod block_state;
pub mod canonical;
pub mod chain_info;
pub mod executed_block;
pub mod database;
pub mod in_memory;
pub mod inactive_peers;
pub mod primitives;
pub mod storage;
