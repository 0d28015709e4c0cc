use chain_state::database::{DatabaseEnv, DatabaseEnvironment, DatabaseError, DbAccessMode, Tx};
use chain_state::storage::environment::Environment;
use chain_state::storage::error::Error;
use chain_state::storage::flags::{LogLevel, Mode};
use chain_state::storage::kv::KvStore;
use chain_state::storage::transaction::Transaction;

#[test]
fn test_kv_store_roundtrip() {
    let mut store = KvStore::empty();
    assert_eq!(store.get(b"alpha"), None);

    store.insert(b"alpha", b"1");
    store.insert(b"beta", b"2");
    assert_eq!(store.get(b"alpha"), Some(b"1".to_vec()));
    assert_eq!(store.get(b"beta"), Some(b"2".to_vec()));
    assert_eq!(store.get(b"gamma"), None);

    // overwriting replaces the previous value
    store.insert(b"alpha", b"3");
    assert_eq!(store.get(b"alpha"), Some(b"3".to_vec()));
}

#[test]
fn test_environment_modes() {
    let mut builder = Environment::builder();
    builder.set_mode(Mode::ReadWrite);
    let env = builder.open_create(None).unwrap();
    assert!(env.is_read_write());
    assert!(!env.is_read_only());

    let mut builder = Environment::builder();
    builder.set_log_level(LogLevel::Warn);
    let env = builder.open(Some(KvStore::empty())).unwrap();
    assert!(env.is_read_only());
    assert!(!env.is_read_write());
}

#[test]
fn test_open_without_create_fails_on_missing_database() {
    // without the create flag, a path holding no database cannot be opened
    assert_eq!(Environment::builder().open(None).err(), Some(Error::RocksDB));
    // the create flag makes the same open succeed with empty contents
    let env = Environment::builder().open_create(None).unwrap();
    assert_eq!(env.begin_ro_txn().unwrap().get(b"k").unwrap(), None);
}

#[test]
fn test_open_sees_persisted_contents() {
    let mut builder = Environment::builder();
    builder.set_mode(Mode::ReadWrite);
    let mut env = builder.open_create(None).unwrap();
    let mut tx = env.begin_rw_txn().unwrap();
    tx.put(b"k", b"v").unwrap();
    tx.commit(&mut env).unwrap();

    // what was committed is observable across a reopen of the contents
    let persisted = env.store.snapshot();
    let reopened = Environment::builder().open(Some(persisted)).unwrap();
    assert_eq!(reopened.begin_ro_txn().unwrap().get(b"k").unwrap(), Some(b"v".to_vec()));
}

#[test]
fn test_read_only_environment_refuses_writes() {
    let env = Environment::builder().open(Some(KvStore::empty())).unwrap();
    assert!(env.begin_ro_txn().is_ok());
    assert_eq!(env.begin_rw_txn().err(), Some(Error::ReadOnly));
}

#[test]
fn test_transaction_commit_publishes_writes() {
    let mut builder = Environment::builder();
    builder.set_mode(Mode::ReadWrite);
    let mut env = builder.open_create(None).unwrap();

    let mut tx = env.begin_rw_txn().unwrap();
    assert_eq!(tx.get(b"k").unwrap(), None);
    tx.put(b"k", b"v").unwrap();
    // the transaction reads its own buffered write
    assert_eq!(tx.get(b"k").unwrap(), Some(b"v".to_vec()));
    // an independent reader does not see it before commit
    let ro = env.begin_ro_txn().unwrap();
    assert_eq!(ro.get(b"k").unwrap(), None);

    assert_eq!(tx.commit(&mut env), Ok(true));

    // the old snapshot still does not see the write, a fresh one does
    assert_eq!(ro.get(b"k").unwrap(), None);
    let ro2 = env.begin_ro_txn().unwrap();
    assert_eq!(ro2.get(b"k").unwrap(), Some(b"v".to_vec()));
}

#[test]
fn test_read_only_commit_is_a_no_op() {
    let mut builder = Environment::builder();
    builder.set_mode(Mode::ReadWrite);
    let mut env = builder.open_create(None).unwrap();

    let mut rw = env.begin_rw_txn().unwrap();
    rw.put(b"x", b"1").unwrap();
    rw.commit(&mut env).unwrap();

    let ro = env.begin_ro_txn().unwrap();
    assert_eq!(ro.commit(&mut env), Ok(true));
    let check = env.begin_ro_txn().unwrap();
    assert_eq!(check.get(b"x").unwrap(), Some(b"1".to_vec()));
}

#[test]
fn test_create_db_records_tables() {
    let mut builder = Environment::builder();
    builder.set_mode(Mode::ReadWrite);
    let mut env = builder.open_create(None).unwrap();
    assert!(env.create_db("Headers").is_ok());
    assert!(env.create_db("Bodies").is_ok());
    assert_eq!(env.tables.len(), 2);
    assert_eq!(env.tables[0], "Headers");
    assert_eq!(env.tables[1], "Bodies");
}

#[test]
fn test_database_env_access_modes() {
    // opening a path holding no database fails
    assert_eq!(
        DatabaseEnv::open(None, DbAccessMode::RW, None).err(),
        Some(DatabaseError::Open(-1))
    );

    let db = DatabaseEnv::open(Some(KvStore::empty()), DbAccessMode::RO, Some(LogLevel::Error))
        .unwrap();
    assert!(db.tx().is_ok());
    assert_eq!(db.tx_mut().err(), Some(DatabaseError::InitTx(-12)));

    let db = DatabaseEnv::open(Some(KvStore::empty()), DbAccessMode::RW, None).unwrap();
    assert!(!db.with_metrics);
    let db = db.with_metrics();
    assert!(db.with_metrics);

    let mut inner_env = db.inner;
    let mut tx = Transaction::rw(KvStore::empty());
    tx.put(b"h", b"1").unwrap();
    tx.commit(&mut inner_env).unwrap();

    let db = DatabaseEnv { inner: inner_env, with_metrics: true };
    let read_tx: Tx = db.tx().unwrap();
    assert_eq!(read_tx.inner.get(b"h").unwrap(), Some(b"1".to_vec()));
    let write_tx = db.tx_mut().unwrap();
    assert!(matches!(write_tx.inner.get(b"h").unwrap(), Some(_)));
}

#[test]
fn test_create_tables_records_all_names() {
    let mut db = DatabaseEnv::open(Some(KvStore::empty()), DbAccessMode::RW, None).unwrap();
    let tables = vec!["Headers".to_string(), "Bodies".to_string(), "Receipts".to_string()];
    assert!(db.create_tables(&tables).is_ok());
    assert_eq!(db.inner.tables, tables);
}

#[test]
fn test_database_environment_dispatch() {
    let db = DatabaseEnv::open(Some(KvStore::empty()), DbAccessMode::RO, None).unwrap();
    let env = DatabaseEnvironment::RocksDB(db);
    assert!(env.tx().is_ok());
    assert_eq!(env.tx_mut().err(), Some(DatabaseError::InitTx(-12)));

    let db = DatabaseEnv::open(Some(KvStore::empty()), DbAccessMode::RW, None).unwrap();
    let env = DatabaseEnvironment::RocksDB(db);
    assert!(env.tx_mut().is_ok());
}
