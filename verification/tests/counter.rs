use db_wrapper::counter::{
    CounterAction, CounterStore, COUNTER_BLOB, COUNTER_BLOB_KEY, COUNTER_SLOTS,
};
use db_wrapper::DbError;
use shodh_redb::backends::InMemoryBackend;
use shodh_redb::{Database, ReadableDatabase, TableDefinition};

const TABLE: TableDefinition<u8, Vec<u8>> = TableDefinition::new(COUNTER_BLOB);

fn memory_db() -> Database {
    let db = Database::builder()
        .create_with_backend(InMemoryBackend::new())
        .expect("create db");
    let tx = db.begin_write().expect("begin write");
    tx.open_table(TABLE).expect("open table");
    tx.commit().expect("commit");
    db
}

fn open(db: &Database) -> CounterStore {
    let tx = db.begin_read().expect("read");
    let table = tx.open_table(TABLE).expect("open");
    let stored = table.get(COUNTER_BLOB_KEY).expect("get").map(|v| v.value());
    CounterStore::new(stored)
}

fn flush(store: &mut CounterStore, db: &Database) -> Result<usize, DbError> {
    match store.flush() {
        CounterAction::Done(n) => Ok(n),
        CounterAction::Store { blob, rest } => {
            let tx = db.begin_write().expect("write");
            {
                let mut table = tx.open_table(TABLE).expect("open");
                table.insert(COUNTER_BLOB_KEY, blob).expect("insert");
            }
            tx.commit().expect("commit");
            store.settle(rest, Ok(()))
        }
    }
}

#[test]
fn new_starts_at_zero() {
    let db = memory_db();
    let mut store = open(&db);
    assert_eq!(store.next(0), 1);
    assert_eq!(store.next(0), 2);
    assert_eq!(store.next(5), 1);
}

#[test]
fn flush_and_restore() {
    let db = memory_db();
    let mut store = open(&db);
    for _ in 0..10 {
        store.next(0);
    }
    for _ in 0..5 {
        store.next(1);
    }
    store.next(255);
    let written = flush(&mut store, &db).expect("flush");
    assert_eq!(written, 1);
    let mut store2 = open(&db);
    assert_eq!(store2.next(0) - 1, 10);
    assert_eq!(store2.next(1) - 1, 5);
    assert_eq!(store2.next(2) - 1, 0);
    assert_eq!(store2.next(255) - 1, 1);
}

#[test]
fn flush_skips_when_no_changes() {
    let db = memory_db();
    let mut store = open(&db);
    assert_eq!(flush(&mut store, &db).unwrap(), 0);
    store.next(0);
    assert_eq!(flush(&mut store, &db).unwrap(), 1);
    assert_eq!(flush(&mut store, &db).unwrap(), 0);
}

#[test]
fn all_256_slots_independent() {
    let db = memory_db();
    let mut store = open(&db);
    for id in 0..=255u8 {
        assert_eq!(store.next(id), 1);
    }
    for id in 0..=255u8 {
        assert_eq!(store.next(id), 2);
    }
    flush(&mut store, &db).expect("flush");
    let mut store2 = open(&db);
    for id in 0..=255u8 {
        assert_eq!(store2.next(id) - 1, 2);
    }
}

#[test]
fn load_all_empty_db_returns_zeros() {
    let db = memory_db();
    let mut store = open(&db);
    for id in 0..=255u8 {
        assert_eq!(store.next(id) - 1, 0);
    }
}

#[test]
fn blob_is_little_endian_in_slot_order() {
    let mut store = CounterStore::new(None);
    store.next(0);
    for _ in 0..258 {
        store.next(1);
    }
    let blob = match store.flush() {
        CounterAction::Store { blob, .. } => blob,
        CounterAction::Done(_) => panic!("a blob was expected"),
    };
    assert_eq!(blob.len(), 2048);
    assert_eq!(&blob[..8], &[1, 0, 0, 0, 0, 0, 0, 0]);
    assert_eq!(&blob[8..16], &[2, 1, 0, 0, 0, 0, 0, 0]);
    assert!(blob[16..].iter().all(|b| *b == 0));
}

#[test]
fn short_blob_fills_the_first_slots() {
    // One whole number and three bytes that make none.
    let blob = vec![7, 0, 0, 0, 0, 0, 0, 1, 9, 9, 9];
    let values = CounterStore::load_all(Some(blob));
    assert_eq!(values[0], 0x0100_0000_0000_0007);
    assert!(values[1..].iter().all(|v| *v == 0));
    assert_eq!(values.len(), COUNTER_SLOTS);
}

#[test]
fn current_does_not_increment() {
    let mut store = CounterStore::new(None);
    assert_eq!(store.current(9), 0);
    store.next(9);
    assert_eq!(store.current(9), 1);
    assert_eq!(store.current(9), 1);
}

#[test]
fn failed_flush_is_repeated() {
    let mut store = CounterStore::new(None);
    store.next(3);
    let rest = match store.flush() {
        CounterAction::Store { rest, .. } => rest,
        CounterAction::Done(_) => panic!("a blob was expected"),
    };
    let error = DbError::TableNotFound("counter_blob".to_string());
    assert!(matches!(
        store.settle(rest, Err(error)),
        Err(DbError::TableNotFound(_))
    ));
    assert!(matches!(store.flush(), CounterAction::Store { .. }));
}

#[test]
fn increments_during_flush_are_not_lost() {
    let mut store = CounterStore::new(None);
    store.next(0);
    let rest = match store.flush() {
        CounterAction::Store { rest, .. } => rest,
        CounterAction::Done(_) => panic!("a blob was expected"),
    };
    store.next(0);
    assert_eq!(store.settle(rest, Ok(())).unwrap(), 1);
    match store.flush() {
        CounterAction::Store { blob, .. } => assert_eq!(blob[0], 2),
        CounterAction::Done(_) => panic!("a blob was expected"),
    }
}
