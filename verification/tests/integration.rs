use db_wrapper::counter::{CounterAction, COUNTER_BLOB, COUNTER_BLOB_KEY};
use db_wrapper::wrapper::StoreAction;
use db_wrapper::{serialize_value, DBWrapper, DbError};
use shodh_redb::backends::InMemoryBackend;
use shodh_redb::{Database, ReadableDatabase, TableDefinition, TableHandle, Value};

const TEST_TABLE: TableDefinition<u64, String> = TableDefinition::new("integration_test");
const COUNTERS: TableDefinition<u8, Vec<u8>> = TableDefinition::new(COUNTER_BLOB);

/// A handle with its two databases in memory.
struct Host {
    core: DBWrapper,
    db: Database,
    counter_db: Database,
}

fn memory_db() -> Database {
    Database::builder()
        .create_with_backend(InMemoryBackend::new())
        .expect("create")
}

fn load_blob(counter_db: &Database) -> Option<Vec<u8>> {
    let tx = counter_db.begin_read().expect("read");
    let table = tx.open_table(COUNTERS).expect("open");
    let found = table.get(COUNTER_BLOB_KEY).expect("get");
    found.map(|v| v.value())
}

fn store_blob(counter_db: &Database, blob: Vec<u8>) {
    let tx = counter_db.begin_write().expect("write");
    {
        let mut table = tx.open_table(COUNTERS).expect("open");
        table.insert(COUNTER_BLOB_KEY, blob).expect("insert");
    }
    tx.commit().expect("commit");
}

impl Host {
    fn open(db: Database, counter_db: Database) -> Host {
        let tx = db.begin_write().expect("write");
        tx.open_table(TEST_TABLE).expect("open");
        tx.commit().expect("commit");
        let tx = counter_db.begin_write().expect("write");
        tx.open_table(COUNTERS).expect("open");
        tx.commit().expect("commit");
        let mut core = DBWrapper::new(load_blob(&counter_db));
        core.init_tables(|core| {
            core.register_table(TEST_TABLE.name());
        });
        Host { core, db, counter_db }
    }

    fn drive(&mut self, mut action: StoreAction) -> Result<(), DbError> {
        loop {
            let rest = match action {
                StoreAction::Done(result) => return result,
                StoreAction::Counters { blob, rest } => {
                    store_blob(&self.counter_db, blob);
                    rest
                }
                StoreAction::Batch { batch, rest, .. } => {
                    let tx = self.db.begin_write().expect("write");
                    {
                        let mut table = tx.open_table(TEST_TABLE).expect("open");
                        for (k, v) in &batch.pairs {
                            table
                                .insert(u64::from_bytes(k), String::from_bytes(v))
                                .expect("insert");
                        }
                    }
                    tx.commit().expect("commit");
                    rest
                }
            };
            action = self.core.resume(rest, Ok(()));
        }
    }

    fn write(&mut self, key: u64, value: &str) -> Result<(), DbError> {
        let action = self.core.write(TEST_TABLE.name(), key, value.to_string());
        self.drive(action)
    }

    fn flush_buffers(&mut self) -> Result<(), DbError> {
        let action = self.core.flush_buffers();
        self.drive(action)
    }

    fn flush_counters(&mut self) -> Result<usize, DbError> {
        match self.core.flush_counters() {
            CounterAction::Done(n) => Ok(n),
            CounterAction::Store { blob, rest } => {
                store_blob(&self.counter_db, blob);
                self.core.settle_counters(rest, Ok(()))
            }
        }
    }

    fn stored(&self, key: u64) -> Option<String> {
        let tx = self.db.begin_read().expect("read");
        let table = tx.open_table(TEST_TABLE).expect("open");
        let found = table.get(key).unwrap();
        found.map(|v| v.value())
    }
}

fn setup() -> Host {
    Host::open(memory_db(), memory_db())
}

#[test]
fn full_lifecycle_write_flush_restore_read() {
    let mut host = setup();

    // 1. Write some data.
    host.write(1, "one").expect("w1");
    host.write(2, "two").expect("w2");
    host.core.next(0); // allocate a counter

    // 2. Read from buffer (before flush).
    let k1 = serialize_value(&1u64);
    let val = host
        .core
        .get_buffered(TEST_TABLE.name(), &k1)
        .expect("in buffer");
    assert_eq!(String::from_bytes(&val), "one");

    // 3. Flush both buffers and counters.
    host.flush_counters().expect("flush counters");
    host.flush_buffers().expect("flush buffers");

    // 4. Buffer should be empty now.
    let k2 = serialize_value(&2u64);
    assert!(host.core.get_buffered(TEST_TABLE.name(), &k2).is_none());

    // 5. Data is in DB.
    assert_eq!(host.stored(1).unwrap(), "one");
    assert_eq!(host.stored(2).unwrap(), "two");

    // 6. Counter value after another increment (not flushed yet).
    let counter_val = host.core.next(0);
    assert!(counter_val > 0);

    // 7. Flush counters again before close.
    host.flush_counters().expect("flush counters 2");
    let mut host2 = Host::open(host.db, host.counter_db);

    assert_eq!(host2.stored(1).unwrap(), "one");
    assert_eq!(host2.stored(2).unwrap(), "two");

    let restored_counter = host2.core.next(0);
    assert_eq!(restored_counter, counter_val + 1); // +1 because we called next() after flush
}

#[test]
fn counter_independence() {
    let mut host = setup();
    // Different counter IDs are independent.
    let a = host.core.next(10);
    let b = host.core.next(20);
    let c = host.core.next(10);
    assert_eq!(a, 1);
    assert_eq!(b, 1);
    assert_eq!(c, 2);
}

#[test]
fn auto_flush_on_max_size_prevents_oom() {
    let mut host = setup();

    // Write more than the default BUFFER_MAX_ENTRIES.
    // Each write pushes to buffer; when max is hit, auto-flush triggers.
    for i in 0u64..15_000 {
        host.write(i, &format!("val_{i}")).expect("write");
    }
    // Should not OOM: auto-flush kept buffer under max_size.
    assert!(host.core.pending_writes() < 10_000);
    assert_eq!(host.core.pending_writes(), 5_000);

    // All data should be in DB after final flush.
    host.flush_buffers().expect("final flush");
    assert_eq!(host.stored(0).unwrap(), "val_0");
    assert_eq!(host.stored(14_999).unwrap(), "val_14999");
}
