# db_wrapper

The core of an embedded database layer over
[shodh-redb](https://crates.io/crates/shodh-redb), verified with Verus:

- **Counters**: `next(id)` on 256 independent slots, persisted as a single blob.
- **Unified write buffers**: one for all regular tables, one for all TTL tables.
- **Read-through lookups**: check the buffers first, then the database.
- **Counters before data**: a flush stores the counters first, and ends with an error,
  before any batch, if they cannot be stored. All entries then stay pending.
- **Failed flushes**: if a batch cannot be stored, or its table is not registered, the
  flush ends with an error, and the entries that it took and did not store are dropped.
- **No I/O of its own**: flushes are driven by the host application.

## Usage

```rust
let mut db = DBWrapper::new(stored_counter_blob);

// Register tables once at startup.
db.register_table("users");

// Allocate IDs and buffer writes.
let id = db.next(0);
let action = db.write("users", id, name);

// Read: buffers first.
match db.get("users", id) {
    Lookup::Buffered(bytes) => { /* ... */ }
    Lookup::Stored { key_bytes } => { /* read the database */ }
}

// Flush: store what is asked for, and report the outcome.
let mut action = db.flush_buffers();
loop {
    let (rest, outcome) = match action {
        StoreAction::Done(result) => break result,
        StoreAction::Counters { blob, rest } => (rest, store_counters(blob)),
        StoreAction::Batch { slot, batch, rest, .. } => (rest, store_batch(slot, batch)),
    };
    action = db.resume(rest, outcome);
}
```

## Layout

- `src/value.rs`: encodings of keys and values, the varint prefix of byte vectors.
- `src/buffer.rs`: the write buffer, its grouping by table, its flush.
- `src/counter.rs`: the counters and their blob.
- `src/wrapper.rs`: the database handle.
- `src/path.rs`: file names.
- `src/error.rs`: errors.
- `src/disk.rs`, `src/laws.rs`: a model of what is on disk, and what holds of whole
  operations, such as that a flush changes no read.
- `app/`: opens the database files and stores what the library asks for.
