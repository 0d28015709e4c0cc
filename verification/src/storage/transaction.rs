//! Transactions over the storage environment.
//!
//! A transaction reads from a snapshot of the committed contents taken when
//! it began. A read-write transaction additionally buffers writes, which
//! shadow the snapshot for its own reads and reach the environment only on
//! commit. A read-only transaction never carries writes.

use vstd::prelude::*;
use super::environment::Environment;
use super::error::Error;
use super::flags::Mode;
use super::kv::KvStore;

verus! {

/// A transaction: a snapshot of the committed contents, plus a write buffer
/// in read-write mode.
#[derive(Debug)]
pub struct Transaction {
    /// Whether this transaction may write.
    pub mode: Mode,
    /// The committed contents as of the transaction's begin.
    pub base: KvStore,
    /// Writes buffered by this transaction; empty in read-only mode.
    pub writes: KvStore,
}

impl Transaction {
    pub open spec fn wf(self) -> bool {
        &&& self.base.wf()
        &&& self.writes.wf()
        &&& self.mode is ReadOnly ==> self.writes.entries@.len() == 0
    }

    /// What this transaction's own reads observe: its buffered writes shadow
    /// the snapshot.
    pub open spec fn visible(self) -> Map<Seq<u8>, Seq<u8>> {
        self.base.view_map().union_prefer_right(self.writes.view_map())
    }

    /// A read-write transaction over the given snapshot.
    pub fn rw(base: KvStore) -> (r: Self)
        requires
            base.wf(),
        ensures
            r.wf(),
            r.mode is ReadWrite,
            r.base.view_map() == base.view_map(),
            r.writes.view_map() == Map::<Seq<u8>, Seq<u8>>::empty(),
    {
        Transaction { mode: Mode::ReadWrite, base, writes: KvStore::empty() }
    }

    /// A read-only transaction over the given snapshot.
    pub fn ro(base: KvStore) -> (r: Self)
        requires
            base.wf(),
        ensures
            r.wf(),
            r.mode is ReadOnly,
            r.base.view_map() == base.view_map(),
            r.writes.view_map() == Map::<Seq<u8>, Seq<u8>>::empty(),
    {
        Transaction { mode: Mode::ReadOnly, base, writes: KvStore::empty() }
    }

    /// Reads a key: the transaction's own writes first, then the snapshot.
    pub fn get(&self, key: &[u8]) -> (r: Result<Option<Vec<u8>>, Error>)
        requires
            self.wf(),
        ensures
            r matches Ok(v) && (match v {
                Some(value) => self.visible().dom().contains(key@) && value@ == self.visible()[key@],
                None => !self.visible().dom().contains(key@),
            }),
    {
        match self.writes.get(key) {
            Some(value) => Ok(Some(value)),
            None => Ok(self.base.get(key)),
        }
    }

    /// Buffers a write. Only a read-write transaction may write; the
    /// original discipline treats a write through a read-only transaction as
    /// unreachable, so it is excluded here.
    pub fn put(&mut self, key: &[u8], value: &[u8]) -> (r: Result<(), Error>)
        requires
            old(self).wf(),
            old(self).mode is ReadWrite,
        ensures
            r is Ok,
            final(self).wf(),
            final(self).mode == old(self).mode,
            final(self).base.view_map() == old(self).base.view_map(),
            final(self).writes.view_map() == old(self).writes.view_map().insert(key@, value@),
    {
        self.writes.insert(key, value);
        Ok(())
    }

    /// Commits the transaction into an environment: a read-write
    /// transaction's buffered writes override the committed contents; a
    /// read-only transaction commits trivially and changes nothing.
    pub fn commit(self, env: &mut Environment) -> (r: Result<bool, Error>)
        requires
            self.wf(),
            old(env).wf(),
        ensures
            r == Ok::<bool, Error>(true),
            final(env).wf(),
            final(env).access_mode == old(env).access_mode,
            final(env).tables@ == old(env).tables@,
            self.mode is ReadOnly ==> final(env).store.view_map() == old(env).store.view_map(),
            self.mode is ReadWrite ==> final(env).store.view_map() == old(
                env,
            ).store.view_map().union_prefer_right(self.writes.view_map()),
    {
        match self.mode {
            Mode::ReadWrite => {
                env.apply_writes(&self.writes);
                Ok(true)
            },
            Mode::ReadOnly => {
                proof {
                    assert(self.writes.view_map() =~= Map::<Seq<u8>, Seq<u8>>::empty());
                }
                Ok(true)
            },
        }
    }
}

} // verus!
