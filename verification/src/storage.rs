//! A transactional key/value layer with read-only and read-write access
//! modes, modeling the access discipline of the base storage engine.
//!
//! An [`environment::Environment`] owns the committed contents; a
//! [`transaction::Transaction`] reads a snapshot taken when it began and, in
//! read-write mode, buffers writes that become visible only on commit.

pub mod environment;
pub mod error;
pub mod flags;
pub mod kv;
pub mod transaction;
