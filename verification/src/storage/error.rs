//! Errors of the storage layer.

use vstd::prelude::*;

verus! {

/// A storage-layer failure.
#[derive(Clone, Copy, Debug, PartialEq, Eq, Structural)]
pub enum Error {
    /// The backing engine reported a failure, such as opening a path that
    /// holds no database without the create flag.
    RocksDB,
    /// A write was attempted through a read-only environment.
    ReadOnly,
}

} // verus!
