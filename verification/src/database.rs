//! Database adapter over the storage environment: opens it in the requested
//! access mode and hands out transactions, mapping failures to database
//! error codes.

use vstd::prelude::*;
use crate::storage::environment::{Environment, EnvironmentBuilder};
use crate::storage::flags::{LogLevel, Mode};
use crate::storage::kv::KvStore;
use crate::storage::transaction::Transaction;

verus! {

/// How the database is to be accessed.
#[derive(Clone, Copy, Debug, PartialEq, Eq, Structural)]
pub enum DbAccessMode {
    /// Read-only database access.
    RO,
    /// Read-write database access.
    RW,
}

/// A database failure, carrying the layer's error code.
#[derive(Clone, Copy, Debug, PartialEq, Eq, Structural)]
pub enum DatabaseError {
    /// Opening the database failed.
    Open(i64),
    /// Creating a table failed.
    CreateTable(i64),
    /// Starting a transaction failed.
    InitTx(i64),
    /// A read failed.
    Read(i64),
    /// Committing failed.
    Commit(i64),
}

/// A database transaction handed out by the adapter.
#[derive(Debug)]
pub struct Tx {
    /// The underlying storage transaction.
    pub inner: Transaction,
}

impl Tx {
    pub fn new(inner: Transaction) -> (r: Self)
        ensures
            r.inner == inner,
    {
        Tx { inner }
    }
}

/// The opened database environment.
#[derive(Debug)]
pub struct DatabaseEnv {
    /// The underlying storage environment.
    pub inner: Environment,
    /// Whether to record metrics.
    pub with_metrics: bool,
}

impl DatabaseEnv {
    pub open spec fn wf(self) -> bool {
        self.inner.wf()
    }

    /// Opens the database over what the caller found at its path, in the
    /// requested access mode. It does not create a missing database, nor any
    /// tables: opening nothing fails with an open error.
    pub fn open(existing: Option<KvStore>, kind: DbAccessMode, log_level: Option<LogLevel>) -> (r:
        Result<DatabaseEnv, DatabaseError>)
        requires
            existing matches Some(s) ==> s.wf(),
        ensures
            existing is None ==> r == Err::<DatabaseEnv, DatabaseError>(DatabaseError::Open(-1i64)),
            existing matches Some(s) ==> (r matches Ok(env) && env.wf() && !env.with_metrics && (
            match kind {
                DbAccessMode::RO => env.inner.access_mode is ReadOnly,
                DbAccessMode::RW => env.inner.access_mode is ReadWrite,
            }) && env.inner.store.view_map() == s.view_map()),
    {
        let mut inner_env = Environment::builder();
        if let Some(level) = log_level {
            inner_env.set_log_level(level);
        }
        inner_env.set_mode(
            match kind {
                DbAccessMode::RO => Mode::ReadOnly,
                DbAccessMode::RW => Mode::ReadWrite,
            },
        );
        match inner_env.open(existing) {
            Ok(inner) => Ok(DatabaseEnv { inner, with_metrics: false }),
            Err(_) => Err(DatabaseError::Open(-1)),
        }
    }

    /// Begins a read-only database transaction.
    pub fn tx(&self) -> (r: Result<Tx, DatabaseError>)
        requires
            self.wf(),
        ensures
            r matches Ok(tx) && tx.inner.wf() && tx.inner.mode is ReadOnly
                && tx.inner.base.view_map() == self.inner.store.view_map(),
    {
        match self.inner.begin_ro_txn() {
            Ok(inner) => Ok(Tx::new(inner)),
            Err(_) => Err(DatabaseError::InitTx(-12)),
        }
    }

    /// Begins a read-write database transaction; refused with an
    /// initialization error on a read-only database.
    pub fn tx_mut(&self) -> (r: Result<Tx, DatabaseError>)
        requires
            self.wf(),
        ensures
            self.inner.access_mode is ReadOnly ==> r == Err::<Tx, DatabaseError>(
                DatabaseError::InitTx(-12i64),
            ),
            self.inner.access_mode is ReadWrite ==> (r matches Ok(tx) && tx.inner.wf()
                && tx.inner.mode is ReadWrite && tx.inner.base.view_map()
                == self.inner.store.view_map()),
    {
        match self.inner.begin_rw_txn() {
            Ok(inner) => Ok(Tx::new(inner)),
            Err(_) => Err(DatabaseError::InitTx(-12)),
        }
    }

    /// Enables metrics on the database.
    pub fn with_metrics(self) -> (r: Self)
        ensures
            r.with_metrics,
            r.inner == self.inner,
    {
        let mut this = self;
        this.with_metrics = true;
        this
    }
}


impl DatabaseEnv {
    /// Creates all the given tables, in order, recording each name.
    pub fn create_tables(&mut self, tables: &Vec<String>) -> (r: Result<(), DatabaseError>)
        requires
            old(self).wf(),
        ensures
            r is Ok,
            final(self).wf(),
            final(self).inner.tables@.len() == old(self).inner.tables@.len() + tables@.len(),
            forall|j: int|
                0 <= j < old(self).inner.tables@.len() ==> final(self).inner.tables@[j] == old(self).inner.tables@[j],
            forall|k: int|
                0 <= k < tables@.len() ==> final(self).inner.tables@[old(self).inner.tables@.len()
                    + k]@ == tables@[k]@,
            final(self).inner.store.view_map() == old(self).inner.store.view_map(),
            final(self).inner.access_mode == old(self).inner.access_mode,
            final(self).with_metrics == old(self).with_metrics,
    {
        let ghost base_len = self.inner.tables@.len();
        let mut k: usize = 0;
        while k < tables.len()
            invariant
                self.wf(),
                base_len == old(self).inner.tables@.len(),
                k <= tables@.len(),
                self.inner.tables@.len() == base_len + k,
                forall|j: int|
                    0 <= j < base_len ==> self.inner.tables@[j] == old(self).inner.tables@[j],
                forall|m: int|
                    0 <= m < k ==> self.inner.tables@[base_len + m]@ == tables@[m]@,
                self.inner.store.view_map() == old(self).inner.store.view_map(),
                self.inner.access_mode == old(self).inner.access_mode,
                self.with_metrics == old(self).with_metrics,
            decreases tables@.len() - k,
        {
            match self.inner.create_db(tables[k].as_str()) {
                Ok(()) => (),
                Err(_) => {
                    return Err(DatabaseError::CreateTable(-3));
                },
            }
            k = k + 1;
        }
        Ok(())
    }
}

/// The database backends a node can run on. Only the engine this crate
/// models is available here; the original's memory-mapped backend lives in
/// an outside crate and is not modeled.
#[derive(Debug)]
pub enum DatabaseEnvironment {
    /// The modeled transactional engine.
    RocksDB(DatabaseEnv),
}

impl DatabaseEnvironment {
    pub open spec fn wf(self) -> bool {
        match self {
            DatabaseEnvironment::RocksDB(db) => db.wf(),
        }
    }

    /// Begins a read-only transaction on the underlying backend.
    pub fn tx(&self) -> (r: Result<Tx, DatabaseError>)
        requires
            self.wf(),
        ensures
            match self {
                DatabaseEnvironment::RocksDB(db) => r matches Ok(tx) && tx.inner.wf()
                    && tx.inner.mode is ReadOnly && tx.inner.base.view_map()
                    == db.inner.store.view_map(),
            },
    {
        match self {
            DatabaseEnvironment::RocksDB(db) => db.tx(),
        }
    }

    /// Begins a read-write transaction on the underlying backend; refused on
    /// a read-only database.
    pub fn tx_mut(&self) -> (r: Result<Tx, DatabaseError>)
        requires
            self.wf(),
        ensures
            match self {
                DatabaseEnvironment::RocksDB(db) => {
                    &&& db.inner.access_mode is ReadOnly ==> r == Err::<Tx, DatabaseError>(
                        DatabaseError::InitTx(-12i64),
                    )
                    &&& db.inner.access_mode is ReadWrite ==> (r matches Ok(tx) && tx.inner.wf()
                        && tx.inner.mode is ReadWrite && tx.inner.base.view_map()
                        == db.inner.store.view_map())
                },
            },
    {
        match self {
            DatabaseEnvironment::RocksDB(db) => db.tx_mut(),
        }
    }
}

} // verus!
