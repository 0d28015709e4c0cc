//! The storage environment: the committed contents, the tables created in
//! it, and its access mode.

use vstd::prelude::*;
use super::error::Error;
use super::flags::{DatabaseFlags, LogLevel, Mode};
use super::kv::KvStore;
use super::transaction::Transaction;

verus! {

/// An opened storage environment.
#[derive(Debug)]
pub struct Environment {
    /// The committed contents.
    pub store: KvStore,
    /// The names of the tables created in this environment.
    pub tables: Vec<String>,
    /// Whether this environment may be written through.
    pub access_mode: Mode,
}

impl Environment {
    pub open spec fn wf(self) -> bool {
        self.store.wf()
    }

    /// A builder for an environment; read-only until a mode is set.
    pub fn builder() -> (r: EnvironmentBuilder)
        ensures
            r.log_level is None,
            r.access_mode is ReadOnly,
    {
        EnvironmentBuilder { log_level: None, access_mode: Mode::ReadOnly }
    }

    /// Records a table of the given name. The contents are not partitioned
    /// by table: keys live in one flat space.
    pub fn create_db(&mut self, name: &str) -> (r: Result<(), Error>)
        requires
            old(self).wf(),
        ensures
            r is Ok,
            final(self).wf(),
            final(self).tables@.len() == old(self).tables@.len() + 1,
            final(self).tables@[old(self).tables@.len() as int]@ == name@,
            forall|j: int|
                0 <= j < old(self).tables@.len() ==> final(self).tables@[j] == old(self).tables@[j],
            final(self).store.view_map() == old(self).store.view_map(),
            final(self).access_mode == old(self).access_mode,
    {
        self.tables.push(name.to_owned());
        Ok(())
    }

    /// Begins a read-only transaction over a snapshot of the committed
    /// contents.
    pub fn begin_ro_txn(&self) -> (r: Result<Transaction, Error>)
        requires
            self.wf(),
        ensures
            r matches Ok(tx) && tx.wf() && tx.mode is ReadOnly && tx.base.view_map()
                == self.store.view_map() && tx.writes.view_map() == Map::<Seq<u8>, Seq<u8>>::empty(),
    {
        let tx = Transaction::ro(self.store.snapshot());
        Ok(tx)
    }

    /// Begins a read-write transaction over a snapshot of the committed
    /// contents; refused on a read-only environment.
    pub fn begin_rw_txn(&self) -> (r: Result<Transaction, Error>)
        requires
            self.wf(),
        ensures
            self.access_mode is ReadOnly ==> r == Err::<Transaction, Error>(Error::ReadOnly),
            self.access_mode is ReadWrite ==> (r matches Ok(tx) && tx.wf() && tx.mode is ReadWrite
                && tx.base.view_map() == self.store.view_map() && tx.writes.view_map() == Map::<
                Seq<u8>,
                Seq<u8>,
            >::empty()),
    {
        if self.is_read_only() {
            Err(Error::ReadOnly)
        } else {
            let tx = Transaction::rw(self.store.snapshot());
            Ok(tx)
        }
    }

    /// True when the environment was opened read-write.
    pub fn is_read_write(&self) -> (r: bool)
        ensures
            r == (self.access_mode is ReadWrite),
    {
        matches!(self.access_mode, Mode::ReadWrite)
    }

    /// True when the environment was opened read-only.
    pub fn is_read_only(&self) -> (r: bool)
        ensures
            r == (self.access_mode is ReadOnly),
    {
        matches!(self.access_mode, Mode::ReadOnly)
    }

    /// Overrides the committed contents with the given writes; used by a
    /// committing read-write transaction.
    pub(crate) fn apply_writes(&mut self, writes: &KvStore)
        requires
            old(self).wf(),
            writes.wf(),
        ensures
            final(self).wf(),
            final(self).store.view_map() == old(self).store.view_map().union_prefer_right(
                writes.view_map(),
            ),
            final(self).access_mode == old(self).access_mode,
            final(self).tables@ == old(self).tables@,
    {
        self.store.apply(writes);
    }
}

/// Collects the options an environment is opened with.
#[derive(Debug)]
pub struct EnvironmentBuilder {
    /// The engine log verbosity to request, when one was set.
    pub log_level: Option<LogLevel>,
    /// The access mode to open with.
    pub access_mode: Mode,
}

impl EnvironmentBuilder {
    /// Opens an existing environment. `existing` is what the caller found at
    /// the environment's path (reading the path is the caller's job): the
    /// persisted contents, or nothing when no database exists there. Since
    /// this variant does not create a missing database, opening nothing
    /// fails with an engine error.
    pub fn open(self, existing: Option<KvStore>) -> (r: Result<Environment, Error>)
        requires
            existing matches Some(s) ==> s.wf(),
        ensures
            existing is None ==> r == Err::<Environment, Error>(Error::RocksDB),
            existing matches Some(s) ==> (r matches Ok(env) && env.wf() && env.access_mode
                == self.access_mode && env.store.view_map() == s.view_map() && env.tables@.len()
                == 0),
    {
        self.open_with_flags(existing, DatabaseFlags::Open)
    }

    /// Opens an environment from what the caller found at its path, creating
    /// an empty one when no database exists there.
    pub fn open_create(self, existing: Option<KvStore>) -> (r: Result<Environment, Error>)
        requires
            existing matches Some(s) ==> s.wf(),
        ensures
            r matches Ok(env) && env.wf() && env.access_mode == self.access_mode
                && env.tables@.len() == 0,
            existing is None ==> (r matches Ok(env) && env.store.view_map() == Map::<
                Seq<u8>,
                Seq<u8>,
            >::empty()),
            existing matches Some(s) ==> (r matches Ok(env) && env.store.view_map()
                == s.view_map()),
    {
        self.open_with_flags(existing, DatabaseFlags::Create)
    }

    /// Opens an environment over the contents found at its path: an existing
    /// database opens with its persisted contents; a missing one is created
    /// empty under the create flag and refused otherwise.
    fn open_with_flags(self, existing: Option<KvStore>, flags: DatabaseFlags) -> (r: Result<
        Environment,
        Error,
    >)
        requires
            existing matches Some(s) ==> s.wf(),
        ensures
            match existing {
                Some(s) => r matches Ok(env) && env.wf() && env.access_mode == self.access_mode
                    && env.store.view_map() == s.view_map() && env.tables@.len() == 0,
                None => match flags {
                    DatabaseFlags::Create => r matches Ok(env) && env.wf() && env.access_mode
                        == self.access_mode && env.store.view_map() == Map::<
                        Seq<u8>,
                        Seq<u8>,
                    >::empty() && env.tables@.len() == 0,
                    DatabaseFlags::Open => r == Err::<Environment, Error>(Error::RocksDB),
                },
            },
    {
        match existing {
            Some(store) => Ok(
                Environment { store, tables: Vec::new(), access_mode: self.access_mode },
            ),
            None => match flags {
                DatabaseFlags::Create => Ok(
                    Environment {
                        store: KvStore::empty(),
                        tables: Vec::new(),
                        access_mode: self.access_mode,
                    },
                ),
                DatabaseFlags::Open => Err(Error::RocksDB),
            },
        }
    }

    /// Requests an engine log verbosity.
    pub fn set_log_level(&mut self, level: LogLevel)
        ensures
            final(self).log_level == Some(level),
            final(self).access_mode == old(self).access_mode,
    {
        self.log_level = Some(level);
    }

    /// Chooses the access mode to open with.
    pub fn set_mode(&mut self, mode: Mode)
        ensures
            final(self).access_mode == mode,
            final(self).log_level == old(self).log_level,
    {
        self.access_mode = mode;
    }
}

} // verus!
