//! Access modes and opening flags for the storage environment.

use vstd::prelude::*;

verus! {

/// Whether an environment may be written through.
#[derive(Clone, Copy, Debug, PartialEq, Eq, Structural)]
pub enum Mode {
    ReadOnly,
    ReadWrite,
}

/// Whether opening may create a missing database.
#[derive(Clone, Copy, Debug, PartialEq, Eq, Structural)]
pub enum DatabaseFlags {
    Create,
    Open,
}

/// Verbosity of the engine's own logging; recorded, never acted on here.
#[derive(Clone, Copy, Debug, PartialEq, Eq, Structural)]
pub enum LogLevel {
    Fatal,
    Error,
    Warn,
    Notice,
    Verbose,
    Debug,
    Trace,
    Extra,
}

} // verus!
