use db_wrapper::counter::{CounterAction, COUNTER_BLOB, COUNTER_BLOB_KEY};
use db_wrapper::path::{backup_path, counter_path};
use db_wrapper::wrapper::{BufferKind, Lookup, StoreAction};
use db_wrapper::{serialize_value, DBWrapper, DbError};
use shodh_redb::backends::InMemoryBackend;
use shodh_redb::{Database, ReadableDatabase, TableDefinition, TableHandle, Value};

const TEST_TABLE: TableDefinition<u64, String> = TableDefinition::new("test_wr");
const COUNTERS: TableDefinition<u8, Vec<u8>> = TableDefinition::new(COUNTER_BLOB);

/// A handle with its two databases in memory.
struct Host {
    core: DBWrapper,
    db: Database,
    counter_db: Database,
}

fn memory_db() -> Database {
    Database::builder()
        .create_with_backend(InMemoryBackend::new())
        .expect("create")
}

fn load_blob(counter_db: &Database) -> Option<Vec<u8>> {
    let tx = counter_db.begin_read().expect("read");
    let table = tx.open_table(COUNTERS).expect("open");
    let found = table.get(COUNTER_BLOB_KEY).expect("get");
    found.map(|v| v.value())
}

fn store_blob(counter_db: &Database, blob: Vec<u8>) {
    let tx = counter_db.begin_write().expect("write");
    {
        let mut table = tx.open_table(COUNTERS).expect("open");
        table.insert(COUNTER_BLOB_KEY, blob).expect("insert");
    }
    tx.commit().expect("commit");
}

impl Host {
    fn open(db: Database, counter_db: Database) -> Host {
        let tx = db.begin_write().expect("write");
        tx.open_table(TEST_TABLE).expect("open");
        tx.commit().expect("commit");
        let tx = counter_db.begin_write().expect("write");
        tx.open_table(COUNTERS).expect("open");
        tx.commit().expect("commit");
        let mut core = DBWrapper::new(load_blob(&counter_db));
        core.init_tables(|core| {
            core.register_table(TEST_TABLE.name());
        });
        Host { core, db, counter_db }
    }

    fn drive(&mut self, mut action: StoreAction) -> Result<(), DbError> {
        loop {
            let rest = match action {
                StoreAction::Done(result) => return result,
                StoreAction::Counters { blob, rest } => {
                    store_blob(&self.counter_db, blob);
                    rest
                }
                StoreAction::Batch { batch, rest, .. } => {
                    let tx = self.db.begin_write().expect("write");
                    {
                        let mut table = tx.open_table(TEST_TABLE).expect("open");
                        for (k, v) in &batch.pairs {
                            table
                                .insert(u64::from_bytes(k), String::from_bytes(v))
                                .expect("insert");
                        }
                    }
                    tx.commit().expect("commit");
                    rest
                }
            };
            action = self.core.resume(rest, Ok(()));
        }
    }

    fn write(&mut self, key: u64, value: &str) -> Result<(), DbError> {
        let action = self.core.write(TEST_TABLE.name(), key, value.to_string());
        self.drive(action)
    }

    fn flush_buffers(&mut self) -> Result<(), DbError> {
        let action = self.core.flush_buffers();
        self.drive(action)
    }

    fn flush_counters(&mut self) -> Result<usize, DbError> {
        match self.core.flush_counters() {
            CounterAction::Done(n) => Ok(n),
            CounterAction::Store { blob, rest } => {
                store_blob(&self.counter_db, blob);
                self.core.settle_counters(rest, Ok(()))
            }
        }
    }

    fn stored(&self, key: u64) -> Option<String> {
        let tx = self.db.begin_read().expect("read");
        let table = tx.open_table(TEST_TABLE).expect("open");
        let found = table.get(key).unwrap();
        found.map(|v| v.value())
    }

    fn get(&self, key: u64) -> Result<Option<Vec<u8>>, DbError> {
        let lookup = self.core.get(TEST_TABLE.name(), key);
        let stored = match &lookup {
            Lookup::Buffered(_) => Ok(None),
            Lookup::Stored { key_bytes } => Ok(self
                .stored(u64::from_bytes(key_bytes))
                .map(|s| serialize_value(&s))),
        };
        lookup.finish(stored)
    }
}

fn open_db() -> Host {
    Host::open(memory_db(), memory_db())
}

#[test]
fn next_increments() {
    let mut host = open_db();
    assert_eq!(host.core.next(0), 1);
    assert_eq!(host.core.next(0), 2);
    assert_eq!(host.core.next(1), 1);
    assert_eq!(host.core.next(0), 3);
}

#[test]
fn write_and_get_from_buffer() {
    let mut host = open_db();
    host.write(1, "hello").expect("write");

    // Should be readable immediately from buffer (before flush).
    let k = serialize_value(&1u64);
    let val = host
        .core
        .get_buffered(TEST_TABLE.name(), &k)
        .expect("in buffer");
    assert_eq!(String::from_bytes(&val), "hello");

    // Not yet in DB.
    assert!(host.stored(1).is_none());
}

#[test]
fn flush_persists_and_readable() {
    let mut host = open_db();
    host.write(1, "x").expect("w1");
    host.write(2, "y").expect("w2");

    host.flush_buffers().expect("flush");
    assert_eq!(host.core.pending_writes(), 0);

    // Buffer empty → DB has it.
    assert_eq!(host.stored(2).unwrap(), "y");
}

#[test]
fn get_buffered_nonexistent() {
    let host = open_db();
    assert!(host
        .core
        .get_buffered(TEST_TABLE.name(), b"no_such_key")
        .is_none());
}

#[test]
fn get_from_buffer_before_flush() {
    let mut host = open_db();
    host.write(1, "hello").expect("write");

    let val = host.get(1).expect("get").expect("value");
    assert_eq!(String::from_bytes(&val), "hello");
}

#[test]
fn get_db_fallback_after_flush() {
    let mut host = open_db();
    host.write(1, "persisted").expect("write");
    host.flush_buffers().expect("flush");
    assert_eq!(host.core.pending_writes(), 0);

    // Buffer is empty: should fall back to DB.
    let val = host.get(1).expect("get").expect("value");
    assert_eq!(String::from_bytes(&val), "persisted");
}

#[test]
fn get_nonexistent_returns_none() {
    let host = open_db();
    assert!(host.get(999).expect("get").is_none());
}

#[test]
fn get_overwrite_in_buffer() {
    let mut host = open_db();
    host.write(1, "old").expect("w1");
    host.write(1, "new").expect("w2");

    let val = host.get(1).expect("get").expect("value");
    assert_eq!(String::from_bytes(&val), "new");
}

#[test]
fn overwrite_in_buffer() {
    let mut host = open_db();
    let k = serialize_value(&1u64);
    host.write(1, "old").expect("w1");
    host.write(1, "new").expect("w2");

    let val = host
        .core
        .get_buffered(TEST_TABLE.name(), &k)
        .expect("in buffer");
    assert_eq!(String::from_bytes(&val), "new");
}

#[test]
fn flush_counters_persists() {
    let mut host = open_db();
    for _ in 0..100 {
        host.core.next(0);
    }
    host.flush_counters().expect("flush");
    // After flush + reload: value should survive.
    let val = host.core.next(0);
    assert!(val > 100);

    let mut again = Host::open(host.db, host.counter_db);
    assert_eq!(again.core.next(0), 101);
}

#[test]
fn lookup_error_is_handed_on() {
    let host = open_db();
    let lookup = host.core.get(TEST_TABLE.name(), 5u64);
    let error = DbError::TableNotFound("gone".to_string());
    match lookup.finish(Err(error)) {
        Err(DbError::TableNotFound(name)) => assert_eq!(name, "gone"),
        _ => panic!("the error was expected"),
    }
}

#[test]
fn buffered_value_outranks_stored() {
    let mut host = open_db();
    host.write(5, "pending").expect("write");
    let lookup = host.core.get_bytes(TEST_TABLE.name(), serialize_value(&5u64));
    let stored = Ok(Some(serialize_value(&"stale".to_string())));
    assert_eq!(lookup.finish(stored).unwrap().unwrap(), b"pending".to_vec());
}

#[test]
fn regular_buffer_is_searched_before_ttl_buffer() {
    let mut host = open_db();
    host.core.register_ttl_table(TEST_TABLE.name(), 1);
    let k = serialize_value(&1u64);
    let hour: u128 = 3_600_000_000_000;
    assert!(matches!(
        host.core.write_ttl(TEST_TABLE.name(), 1u64, "ttl".to_string(), hour),
        StoreAction::Done(Ok(()))
    ));
    assert_eq!(host.core.pending_ttl_writes(), 1);
    assert_eq!(
        host.core.get_buffered(TEST_TABLE.name(), &k).unwrap(),
        b"ttl".to_vec()
    );
    host.write(1, "regular").expect("write");
    assert_eq!(
        host.core.get_buffered(TEST_TABLE.name(), &k).unwrap(),
        b"regular".to_vec()
    );
}

#[test]
fn short_ttl_is_flushed_at_once() {
    let mut host = open_db();
    host.core.register_ttl_table("sessions", 60_000_000_000);
    let ten_seconds: u128 = 10_000_000_000;
    assert!(matches!(
        host.core.write_ttl("sessions", 1u64, true, ten_seconds),
        StoreAction::Done(Ok(()))
    ));
    match host.core.write_ttl("sessions", 2u64, false, ten_seconds - 1) {
        StoreAction::Batch { kind, slot, batch, rest, .. } => {
            assert_eq!(kind, BufferKind::Ttl);
            assert_eq!(slot, 0);
            assert_eq!(batch.table_name, "sessions");
            assert_eq!(batch.pairs.len(), 2);
            assert_eq!(batch.pairs[0].1, vec![1]);
            assert_eq!(batch.pairs[1].1, vec![0]);
            assert!(matches!(
                host.core.resume(rest, Ok(())),
                StoreAction::Done(Ok(()))
            ));
        }
        _ => panic!("a batch was expected"),
    }
    assert_eq!(host.core.pending_ttl_writes(), 0);
}

#[test]
fn counters_are_stored_before_batches() {
    let mut host = open_db();
    host.core.next(7);
    host.write(1, "x").expect("write");
    let rest = match host.core.flush_buffers() {
        StoreAction::Counters { blob, rest } => {
            assert_eq!(blob[7 * 8], 1);
            rest
        }
        _ => panic!("the counters were expected"),
    };
    assert_eq!(host.core.pending_writes(), 1);
    let rest = match host.core.resume(rest, Ok(())) {
        StoreAction::Batch { kind, batch, rest, .. } => {
            assert_eq!(kind, BufferKind::Regular);
            assert_eq!(batch.pairs, vec![(serialize_value(&1u64), b"x".to_vec())]);
            rest
        }
        _ => panic!("a batch was expected"),
    };
    assert!(matches!(
        host.core.resume(rest, Ok(())),
        StoreAction::Done(Ok(()))
    ));
    // Nothing changed since, so nothing is stored.
    assert!(matches!(
        host.core.flush_buffers(),
        StoreAction::Done(Ok(()))
    ));
}

#[test]
fn failed_counters_stop_the_flush() {
    let mut host = open_db();
    host.core.register_ttl_table("sessions", 60_000_000_000);
    host.core.next(7);
    host.write(1, "x").expect("write");
    assert!(matches!(
        host.core.write_ttl("sessions", 1u64, 1u64, 60_000_000_000),
        StoreAction::Done(Ok(()))
    ));
    let rest = match host.core.flush_buffers() {
        StoreAction::Counters { rest, .. } => rest,
        _ => panic!("the counters were expected"),
    };
    let error = DbError::TableNotFound("counter_blob".to_string());
    match host.core.resume(rest, Err(error)) {
        StoreAction::Done(Err(DbError::TableNotFound(name))) => assert_eq!(name, "counter_blob"),
        _ => panic!("the error was expected"),
    }
    // Nothing is stored and nothing is lost.
    assert_eq!(host.core.pending_writes(), 1);
    assert_eq!(host.core.pending_ttl_writes(), 1);
    assert!(host.stored(1).is_none());
    assert_eq!(host.get(1).unwrap().unwrap(), b"x".to_vec());
    // The next flush stores the counters and then the entries.
    let rest = match host.core.flush_buffers() {
        StoreAction::Counters { blob, rest } => {
            assert_eq!(blob[7 * 8], 1);
            rest
        }
        _ => panic!("the counters were expected"),
    };
    assert!(matches!(
        host.core.resume(rest, Ok(())),
        StoreAction::Batch { kind: BufferKind::Regular, .. }
    ));
}

#[test]
fn failed_counters_fail_a_flushing_write() {
    let mut host = open_db();
    host.core.register_ttl_table("sessions", 60_000_000_000);
    host.core.next(7);
    let rest = match host.core.write_ttl("sessions", 1u64, 1u64, 1) {
        StoreAction::Counters { rest, .. } => rest,
        _ => panic!("the counters were expected"),
    };
    let error = DbError::TableNotFound("counter_blob".to_string());
    assert!(matches!(
        host.core.resume(rest, Err(error)),
        StoreAction::Done(Err(DbError::TableNotFound(_)))
    ));
    // The entry stays pending.
    assert_eq!(host.core.pending_ttl_writes(), 1);
    let k = serialize_value(&1u64);
    assert_eq!(
        host.core.get_buffered("sessions", &k).unwrap(),
        serialize_value(&1u64)
    );
}

#[test]
fn failed_batch_drops_the_entries() {
    let mut host = open_db();
    host.write(1, "x").expect("write");
    let rest = match host.core.flush_buffers() {
        StoreAction::Batch { rest, .. } => rest,
        _ => panic!("a batch was expected"),
    };
    let error = DbError::TableNotFound("broken".to_string());
    assert!(matches!(
        host.core.resume(rest, Err(error)),
        StoreAction::Done(Err(DbError::TableNotFound(_)))
    ));
    assert_eq!(host.core.pending_writes(), 0);
    assert!(host.get(1).unwrap().is_none());
}

#[test]
fn flush_of_empty_buffers_stores_the_counters() {
    let mut host = open_db();
    host.core.next(3);
    host.core.next(3);
    host.flush_buffers().expect("flush");
    let mut again = Host::open(host.db, host.counter_db);
    assert_eq!(again.core.next(3), 3);
}

#[test]
fn ttl_write_keeps_regular_reads() {
    let mut host = open_db();
    host.core.register_ttl_table("sessions", 60_000_000_000);
    host.write(1, "stored").expect("write");
    host.flush_buffers().expect("flush");
    host.write(2, "pending").expect("write");
    // Expires at once, so that the TTL buffer is flushed.
    let rest = match host.core.write_ttl("sessions", 1u64, 1u64, 0) {
        StoreAction::Batch { kind, rest, .. } => {
            assert_eq!(kind, BufferKind::Ttl);
            rest
        }
        _ => panic!("a batch was expected"),
    };
    assert!(matches!(
        host.core.resume(rest, Ok(())),
        StoreAction::Done(Ok(()))
    ));
    assert_eq!(host.core.pending_writes(), 1);
    assert_eq!(host.get(1).unwrap().unwrap(), b"stored".to_vec());
    assert_eq!(host.get(2).unwrap().unwrap(), b"pending".to_vec());
}

#[test]
fn unregistered_ttl_table_is_named_after_regular_tables_are_stored() {
    let mut host = open_db();
    host.write(1, "x").expect("write");
    assert!(matches!(
        host.core.write_ttl("nowhere", 1u64, 1u64, 60_000_000_000),
        StoreAction::Done(Ok(()))
    ));
    match host.flush_buffers() {
        Err(DbError::TableNotFound(name)) => assert_eq!(name, "nowhere"),
        _ => panic!("an error was expected"),
    }
    assert_eq!(host.stored(1).unwrap(), "x");
    assert_eq!(host.core.pending_ttl_writes(), 0);
}

#[test]
fn regular_error_leaves_ttl_buffer() {
    let mut host = open_db();
    host.core.register_ttl_table("sessions", 60_000_000_000);
    assert!(matches!(
        host.core.write("nowhere", 1u64, 1u64),
        StoreAction::Done(Ok(()))
    ));
    assert!(matches!(
        host.core.write_ttl("sessions", 1u64, 1u64, 60_000_000_000),
        StoreAction::Done(Ok(()))
    ));
    match host.flush_buffers() {
        Err(DbError::TableNotFound(name)) => assert_eq!(name, "nowhere"),
        _ => panic!("an error was expected"),
    }
    assert_eq!(host.core.pending_writes(), 0);
    assert_eq!(host.core.pending_ttl_writes(), 1);
}

#[test]
fn both_buffers_are_flushed_in_turn() {
    let mut host = open_db();
    host.core.register_ttl_table("sessions", 60_000_000_000);
    host.write(1, "x").expect("write");
    assert!(matches!(
        host.core.write_ttl("sessions", 2u64, 3u64, 60_000_000_000),
        StoreAction::Done(Ok(()))
    ));
    let rest = match host.core.flush_buffers() {
        StoreAction::Batch { kind, rest, .. } => {
            assert_eq!(kind, BufferKind::Regular);
            rest
        }
        _ => panic!("a batch was expected"),
    };
    let rest = match host.core.resume(rest, Ok(())) {
        StoreAction::Batch { kind, batch, rest, .. } => {
            assert_eq!(kind, BufferKind::Ttl);
            assert_eq!(batch.table_name, "sessions");
            rest
        }
        _ => panic!("a batch was expected"),
    };
    assert!(matches!(
        host.core.resume(rest, Ok(())),
        StoreAction::Done(Ok(()))
    ));
}

#[test]
fn bytes_and_typed_writes_agree() {
    let mut host = open_db();
    let action = host.core.write_bytes(
        TEST_TABLE.name(),
        serialize_value(&8u64),
        serialize_value(&"raw".to_string()),
    );
    assert!(matches!(action, StoreAction::Done(Ok(()))));
    assert_eq!(host.get(8).unwrap().unwrap(), b"raw".to_vec());

    let action = host
        .core
        .write_ttl_bytes("t", vec![1], vec![2], 60_000_000_000);
    assert!(matches!(action, StoreAction::Done(Ok(()))));
    assert_eq!(host.core.get_buffered("t", &[1]).unwrap(), vec![2]);
}

#[test]
fn file_names() {
    assert_eq!(counter_path("my_app.redb"), "my_app.redb.counter");
    assert_eq!(backup_path(0), "backups/redb_0.redb");
    assert_eq!(backup_path(1_700_000_089), "backups/redb_1700000089.redb");
    assert_eq!(
        backup_path(u64::MAX),
        "backups/redb_18446744073709551615.redb"
    );
}
