use db_wrapper::buffer::{BufferStore, FlushAction, FlushStart, TargetKind};
use db_wrapper::{serialize_value, DbError};
use shodh_redb::backends::InMemoryBackend;
use shodh_redb::ttl_table::TtlTableDefinition;
use shodh_redb::{Database, ReadableDatabase, TableDefinition, TableHandle, Value};

const TEST_TABLE: TableDefinition<u64, String> = TableDefinition::new("test_buf");
const OTHER_TABLE: TableDefinition<u64, String> = TableDefinition::new("other_buf");
const TTL_TABLE: TtlTableDefinition<u64, String> = TtlTableDefinition::new("ttl_buf");

fn memory_db() -> Database {
    Database::builder()
        .create_with_backend(InMemoryBackend::new())
        .expect("create")
}

fn setup() -> (Database, BufferStore) {
    let db = memory_db();
    let tx = db.begin_write().expect("write");
    tx.open_table(TEST_TABLE).expect("open");
    tx.commit().expect("commit");
    let mut store = BufferStore::new(100);
    store.register_regular(TEST_TABLE.name());
    (db, store)
}

fn text(s: &str) -> Vec<u8> {
    serialize_value(&s.to_string())
}

/// Store pairs in the table that is registered under `name`.
fn insert(db: &Database, name: &str, pairs: &[(Vec<u8>, Vec<u8>)]) {
    let def = if name == TEST_TABLE.name() { TEST_TABLE } else { OTHER_TABLE };
    let tx = db.begin_write().expect("write");
    {
        let mut table = tx.open_table(def).expect("open");
        for (k, v) in pairs {
            table
                .insert(u64::from_bytes(k), String::from_bytes(v))
                .expect("insert");
        }
    }
    tx.commit().expect("commit");
}

/// Store the batches that a flush hands out, until it is over.
fn drive(store: &mut BufferStore, db: &Database, start: FlushStart) -> Result<usize, DbError> {
    let mut action = match start {
        FlushStart::Sync => store.collect(),
        FlushStart::Begun(action) => action,
    };
    loop {
        match action {
            FlushAction::Done(result) => return result,
            FlushAction::Write { batch, rest, .. } => {
                insert(db, &batch.table_name, &batch.pairs);
                action = store.resume(rest, Ok(()));
            }
        }
    }
}

fn push(store: &mut BufferStore, db: &Database, table: &str, key: u64, value: &str) {
    if let Some(start) = store.push(table, serialize_value(&key), text(value), false) {
        drive(store, db, start).unwrap();
    }
}

#[test]
fn push_and_get_from_buffer() {
    let (db, mut store) = setup();
    let k = serialize_value(&42u64);
    push(&mut store, &db, TEST_TABLE.name(), 42, "hello");

    // Should be visible in buffer immediately.
    let found = store.get(TEST_TABLE.name(), &k).unwrap();
    let val: String = String::from_bytes(&found);
    assert_eq!(val, "hello");
}

#[test]
fn flush_persists_to_db() {
    let (db, mut store) = setup();
    push(&mut store, &db, TEST_TABLE.name(), 1, "x");
    push(&mut store, &db, TEST_TABLE.name(), 2, "y");

    let start = store.flush();
    let n = drive(&mut store, &db, start).expect("flush");
    assert_eq!(n, 2);

    // Read from DB.
    let tx = db.begin_read().expect("read");
    let table = tx.open_table(TEST_TABLE).expect("open");
    assert_eq!(table.get(1u64).unwrap().unwrap().value(), "x");
    assert_eq!(table.get(2u64).unwrap().unwrap().value(), "y");
}

#[test]
fn auto_flush_on_max_size() {
    let (db, _store) = setup();
    // Override max_size.
    let mut store = BufferStore::new(3);
    store.register_regular(TEST_TABLE.name());

    push(&mut store, &db, TEST_TABLE.name(), 1, "a");
    push(&mut store, &db, TEST_TABLE.name(), 2, "b");
    assert_eq!(store.len(), 2);

    // Third push → auto-flush.
    push(&mut store, &db, TEST_TABLE.name(), 3, "c");
    assert_eq!(store.len(), 0);

    let tx = db.begin_read().expect("read");
    let table = tx.open_table(TEST_TABLE).expect("open");
    assert_eq!(table.get(3u64).unwrap().unwrap().value(), "c");
}

#[test]
fn get_not_found_returns_none() {
    let (_db, store) = setup();
    assert!(store.get("no_such_table", b"key").is_none());
}

#[test]
fn get_returns_newest_entry() {
    let (db, mut store) = setup();
    let k = serialize_value(&10u64);

    push(&mut store, &db, TEST_TABLE.name(), 10, "old");
    push(&mut store, &db, TEST_TABLE.name(), 10, "new");

    let found = store.get(TEST_TABLE.name(), &k).unwrap();
    assert_eq!(String::from_bytes(&found), "new");
}

#[test]
fn remove_from_buffer() {
    let (db, mut store) = setup();
    let k = serialize_value(&1u64);
    push(&mut store, &db, TEST_TABLE.name(), 1, "x");
    assert!(store.get(TEST_TABLE.name(), &k).is_some());

    assert!(store.remove(TEST_TABLE.name(), &k));
    assert!(store.get(TEST_TABLE.name(), &k).is_none());
}

#[test]
fn remove_nonexistent_returns_false() {
    let (_db, mut store) = setup();
    assert!(!store.remove("no_table", b"no_key"));
}

#[test]
fn remove_uncovers_older_entry() {
    let (db, mut store) = setup();
    let k1 = serialize_value(&1u64);
    let k2 = serialize_value(&2u64);
    push(&mut store, &db, TEST_TABLE.name(), 1, "old");
    push(&mut store, &db, TEST_TABLE.name(), 2, "other");
    push(&mut store, &db, TEST_TABLE.name(), 1, "new");

    assert!(store.remove(TEST_TABLE.name(), &k1));
    assert_eq!(store.get(TEST_TABLE.name(), &k1).unwrap(), b"old".to_vec());
    assert_eq!(store.get(TEST_TABLE.name(), &k2).unwrap(), b"other".to_vec());
    assert_eq!(store.len(), 2);
}

#[test]
fn no_limit_never_flushes_by_itself() {
    let mut store = BufferStore::new(0);
    for i in 0u64..500 {
        assert!(store
            .push("t", serialize_value(&i), Vec::new(), false)
            .is_none());
    }
    assert_eq!(store.len(), 500);
    assert!(store.push("t", Vec::new(), Vec::new(), true).is_some());
    assert_eq!(store.len(), 0);
}

#[test]
fn flush_of_empty_buffer_is_done() {
    let mut store = BufferStore::new(5);
    assert!(matches!(
        store.flush(),
        FlushStart::Begun(FlushAction::Done(Ok(0)))
    ));
}

#[test]
fn flush_asks_for_sync_first() {
    let mut store = BufferStore::new(5);
    store.set_on_flush();
    store.register_regular("t");
    assert!(store.push("t", vec![1], vec![2], false).is_none());
    assert!(matches!(store.flush(), FlushStart::Sync));
    assert_eq!(store.len(), 1);
    assert!(matches!(store.collect(), FlushAction::Write { .. }));
    assert_eq!(store.len(), 0);
}

#[test]
fn batches_keep_order_within_each_table() {
    let mut store = BufferStore::new(0);
    let slot_a = store.register_regular("a");
    let slot_b = store.register_ttl("b", 7);
    assert_eq!((slot_a, slot_b), (0, 1));
    for (table, key, value) in [("b", 1u8, 10u8), ("a", 1, 11), ("b", 1, 12), ("a", 2, 13)] {
        store.push(table, vec![key], vec![value], false);
    }

    let (first, rest) = match store.flush() {
        FlushStart::Begun(FlushAction::Write { slot, kind, batch, rest }) => {
            assert_eq!(slot, 1);
            assert_eq!(kind, TargetKind::Ttl { default_ttl_nanos: 7 });
            (batch, rest)
        }
        _ => panic!("a batch was expected"),
    };
    assert_eq!(first.table_name, "b");
    assert_eq!(first.pairs, vec![(vec![1], vec![10]), (vec![1], vec![12])]);

    let (second, rest) = match store.resume(rest, Ok(())) {
        FlushAction::Write { slot, kind, batch, rest } => {
            assert_eq!(slot, 0);
            assert_eq!(kind, TargetKind::Regular);
            (batch, rest)
        }
        _ => panic!("a batch was expected"),
    };
    assert_eq!(second.table_name, "a");
    assert_eq!(second.pairs, vec![(vec![1], vec![11]), (vec![2], vec![13])]);
    assert!(matches!(store.resume(rest, Ok(())), FlushAction::Done(Ok(4))));
}

#[test]
fn failed_batch_ends_flush() {
    let mut store = BufferStore::new(0);
    store.register_regular("a");
    store.register_regular("b");
    store.push("a", vec![1], vec![1], false);
    store.push("b", vec![1], vec![1], false);
    let rest = match store.flush() {
        FlushStart::Begun(FlushAction::Write { rest, .. }) => rest,
        _ => panic!("a batch was expected"),
    };
    let error = DbError::TableNotFound("lost".to_string());
    match store.resume(rest, Err(error)) {
        FlushAction::Done(Err(DbError::TableNotFound(name))) => assert_eq!(name, "lost"),
        _ => panic!("the error was expected"),
    }
    assert_eq!(store.len(), 0);
}

#[test]
fn unregistered_table_is_named() {
    let (db, mut store) = setup();
    push(&mut store, &db, TEST_TABLE.name(), 1, "x");
    push(&mut store, &db, OTHER_TABLE.name(), 2, "y");
    let start = store.flush();
    match drive(&mut store, &db, start) {
        Err(DbError::TableNotFound(name)) => assert_eq!(name, "other_buf"),
        _ => panic!("an error was expected"),
    }

    // What came before is stored, and nothing is pending any more.
    assert_eq!(store.len(), 0);
    let tx = db.begin_read().expect("read");
    let table = tx.open_table(TEST_TABLE).expect("open");
    assert_eq!(table.get(1u64).unwrap().unwrap().value(), "x");
}

#[test]
fn registering_again_keeps_the_slot() {
    let mut store = BufferStore::new(0);
    assert_eq!(store.register_ttl("a", 1), 0);
    assert_eq!(store.register_ttl("b", 2), 1);
    assert_eq!(store.register_ttl("a", 3), 0);
    store.push("a", vec![1], vec![1], false);
    match store.flush() {
        FlushStart::Begun(FlushAction::Write { slot, kind, .. }) => {
            assert_eq!(slot, 0);
            assert_eq!(kind, TargetKind::Ttl { default_ttl_nanos: 3 });
        }
        _ => panic!("a batch was expected"),
    }
}

#[test]
fn flush_across_tables_persists_newest() {
    let (db, mut store) = setup();
    store.register_regular(OTHER_TABLE.name());
    push(&mut store, &db, TEST_TABLE.name(), 1, "old");
    push(&mut store, &db, OTHER_TABLE.name(), 1, "elsewhere");
    push(&mut store, &db, TEST_TABLE.name(), 1, "new");
    let start = store.flush();
    assert_eq!(drive(&mut store, &db, start).unwrap(), 3);

    let tx = db.begin_read().expect("read");
    let table = tx.open_table(TEST_TABLE).expect("open");
    assert_eq!(table.get(1u64).unwrap().unwrap().value(), "new");
    let other = tx.open_table(OTHER_TABLE).expect("open");
    assert_eq!(other.get(1u64).unwrap().unwrap().value(), "elsewhere");
}

#[test]
fn ttl_batch_is_stored_with_its_default() {
    let db = memory_db();
    let mut store = BufferStore::new(0);
    store.register_ttl(TTL_TABLE.name(), 3_600_000_000_000);
    store.push(TTL_TABLE.name(), serialize_value(&5u64), text("kept"), false);
    let (kind, batch, rest) = match store.flush() {
        FlushStart::Begun(FlushAction::Write { kind, batch, rest, .. }) => (kind, batch, rest),
        _ => panic!("a batch was expected"),
    };
    let nanos = match kind {
        TargetKind::Ttl { default_ttl_nanos } => default_ttl_nanos,
        TargetKind::Regular => panic!("a TTL table was expected"),
    };
    let tx = db.begin_write().expect("write");
    {
        let mut table = tx.open_ttl_table(TTL_TABLE).expect("open");
        for (k, v) in &batch.pairs {
            table
                .insert_with_ttl(
                    u64::from_bytes(k),
                    String::from_bytes(v),
                    std::time::Duration::from_nanos(nanos as u64),
                )
                .expect("insert");
        }
    }
    tx.commit().expect("commit");
    assert!(matches!(store.resume(rest, Ok(())), FlushAction::Done(Ok(1))));

    let tx = db.begin_read().expect("read");
    let table = tx.open_ttl_table(TTL_TABLE).expect("open");
    assert_eq!(table.get(5u64).unwrap().unwrap().value(), "kept");
}
