//! What holds of whole operations: a write, a flush, a restart.

use crate::buffer::{
    batches, distinct_names, lookup, newest, next_action, registered, slot_of, tables,
    BatchView, BufferFlushView, BufferView, EntryView, TargetKind, TargetView,
};
use crate::counter::{
    encode_counters, CounterActionView, CounterView, BUFFER_MAX_ENTRIES, COUNTER_SLOTS,
};
use crate::disk::{
    advance, all_registered, all_well, disk_counters, flush_step, kind_of, perform, read, run,
    scene, store_batches, store_pairs, stored, Disk, Scene,
};
use crate::error::DbErrorView;
use crate::value::StoredValue;
use crate::wrapper::{
    begin_step, chain_step, collect_step, table_step, write_step, BufferKind, DbView,
    FlushStageView, StoreActionView,
};
use vstd::prelude::*;

verus! {

// ---------------------------------------------------------------------------
// A flush that goes well
// ---------------------------------------------------------------------------

/// The first of several actions that go well.
proof fn lemma_run_one(s: Scene, n: nat)
    requires
        n > 0,
    ensures
        run(s, all_well(n)) == run(advance(s, Ok(())), all_well((n - 1) as nat)),
{
    assert(all_well(n).drop_first() =~= all_well((n - 1) as nat));
}

/// Actions that go well, in two parts.
proof fn lemma_run_parts(s: Scene, a: nat, b: nat)
    ensures
        run(s, all_well(a + b)) == run(run(s, all_well(a)), all_well(b)),
    decreases a,
{
    if a > 0 {
        lemma_run_one(s, a + b);
        lemma_run_one(s, a);
        lemma_run_parts(advance(s, Ok(())), (a - 1) as nat, b);
    }
}

/// The batches of registered tables are stored one after the other.
proof fn lemma_run_batches(
    db: DbView,
    disk: Disk,
    kind: BufferKind,
    then_ttl: bool,
    left: BufferFlushView,
    m: nat,
)
    requires
        db.wf(),
        m <= left.batches.len(),
        forall|i: int|
            0 <= i < m ==> slot_of(
                db.buffer(kind).targets,
                (#[trigger] left.batches[i]).table,
            ) is Some,
    ensures
        run(
            scene(
                chain_step(
                    table_step(db, kind, then_ttl, next_action(db.buffer(kind).targets, left)),
                    then_ttl,
                ),
                disk,
            ),
            all_well(m),
        ) == scene(
            chain_step(
                table_step(
                    db,
                    kind,
                    then_ttl,
                    next_action(
                        db.buffer(kind).targets,
                        BufferFlushView { batches: left.batches.skip(m as int), ..left },
                    ),
                ),
                then_ttl,
            ),
            store_batches(disk, kind, left.batches.take(m as int)),
        ),
    decreases m,
{
    let targets = db.buffer(kind).targets;
    let start = scene(
        chain_step(table_step(db, kind, then_ttl, next_action(targets, left)), then_ttl),
        disk,
    );
    if m == 0 {
        assert(left.batches.skip(0) =~= left.batches);
        assert(left.batches.take(0).len() == 0);
    } else {
        let others = BufferFlushView { batches: left.batches.drop_first(), ..left };
        let first = left.batches[0];
        let disk1 = store_pairs(disk, kind, first.table, first.pairs);
        lemma_run_one(start, m);
        crate::buffer::lemma_slot_of(targets, first.table);
        assert(advance(start, Ok(())) == scene(
            chain_step(table_step(db, kind, then_ttl, next_action(targets, others)), then_ttl),
            disk1,
        ));
        assert forall|i: int| 0 <= i < m - 1 implies slot_of(
            targets,
            (#[trigger] others.batches[i]).table,
        ) is Some by {
            assert(others.batches[i] == left.batches[i + 1]);
        }
        lemma_run_batches(db, disk1, kind, then_ttl, others, (m - 1) as nat);
        assert(others.batches.skip(m - 1) =~= left.batches.skip(m as int));
        let head = left.batches.take(m as int);
        assert(head.drop_first() =~= others.batches.take(m - 1));
        assert(head[0] == first);
    }
}

/// The counters after a flush that went well.
pub open spec fn synced(counters: CounterView) -> CounterView {
    CounterView { flushed: counters.values, ..counters }
}

/// How many actions bring the counters to disk: none if they did not change.
pub open spec fn sync_length(counters: CounterView) -> nat {
    if counters.values == counters.flushed {
        0
    } else {
        1
    }
}

/// The disk after the counters were brought to it.
pub open spec fn sync_disk(counters: CounterView, disk: Disk) -> Disk {
    if counters.values == counters.flushed {
        disk
    } else {
        Disk { counters: Some(encode_counters(counters.values)), ..disk }
    }
}

/// A flush of one buffer brings the counters to disk and then stores its first `m`
/// tables, if they are registered.
proof fn lemma_run_flush(db: DbView, disk: Disk, kind: BufferKind, then_ttl: bool, m: nat)
    requires
        db.wf(),
        m <= tables(db.buffer(kind).entries).len(),
        forall|i: int|
            0 <= i < m ==> slot_of(
                db.buffer(kind).targets,
                #[trigger] tables(db.buffer(kind).entries)[i],
            ) is Some,
    ensures
        ({
            let buffer = db.buffer(kind);
            let db1 = DbView { counters: synced(db.counters), ..db }.with_buffer(
                kind,
                buffer.collected(),
            );
            let left = BufferFlushView {
                batches: batches(buffer.entries).skip(m as int),
                count: buffer.entries.len(),
            };
            run(
                scene(chain_step(begin_step(db, kind, then_ttl), then_ttl), disk),
                all_well(sync_length(db.counters) + m),
            ) == scene(
                chain_step(
                    table_step(db1, kind, then_ttl, next_action(buffer.targets, left)),
                    then_ttl,
                ),
                store_batches(
                    sync_disk(db.counters, disk),
                    kind,
                    batches(buffer.entries).take(m as int),
                ),
            )
        }),
{
    let buffer = db.buffer(kind);
    let all = batches(buffer.entries);
    let db0 = DbView { counters: synced(db.counters), ..db };
    let db1 = db0.with_buffer(kind, buffer.collected());
    let disk1 = sync_disk(db.counters, disk);
    let left = BufferFlushView { batches: all, count: buffer.entries.len() };
    let start = scene(chain_step(begin_step(db, kind, then_ttl), then_ttl), disk);
    let mid = scene(
        chain_step(table_step(db1, kind, then_ttl, next_action(buffer.targets, left)), then_ttl),
        disk1,
    );
    assert(db.with_buffer(kind, buffer.flush_begun()) =~= db);
    assert(db0.buffer(kind) == buffer);
    if buffer.entries.len() == 0 {
        assert(all.len() == 0);
    }
    assert(collect_step(db0, kind, then_ttl) == table_step(
        db1,
        kind,
        then_ttl,
        next_action(buffer.targets, left),
    ));
    if db.counters.values == db.counters.flushed {
        assert(db0 =~= db);
        assert(start == mid);
    } else {
        assert(advance(start, Ok(())) == mid);
        lemma_run_one(start, 1);
    }
    lemma_run_parts(start, sync_length(db.counters), m);
    assert forall|i: int| 0 <= i < m implies slot_of(
        db1.buffer(kind).targets,
        (#[trigger] left.batches[i]).table,
    ) is Some by {
        assert(left.batches[i].table == tables(buffer.entries)[i]);
    }
    lemma_run_batches(db1, disk1, kind, then_ttl, left, m);
}

/// Registered entries belong to registered tables.
proof fn lemma_tables_registered(buffer: BufferView)
    requires
        all_registered(buffer),
    ensures
        forall|i: int|
            0 <= i < tables(buffer.entries).len() ==> slot_of(
                buffer.targets,
                #[trigger] tables(buffer.entries)[i],
            ) is Some,
{
    crate::buffer::lemma_tables(buffer.entries);
    assert forall|i: int| 0 <= i < tables(buffer.entries).len() implies slot_of(
        buffer.targets,
        #[trigger] tables(buffer.entries)[i],
    ) is Some by {
        let t = tables(buffer.entries)[i];
        assert(tables(buffer.entries).contains(t));
        let j = choose|j: int|
            0 <= j < buffer.entries.len() && (#[trigger] buffer.entries[j]).table == t;
        assert(buffer.entries[j].table == t);
    }
}

/// A flush of one buffer of registered tables stores all of it.
proof fn lemma_flush_one(db: DbView, disk: Disk, kind: BufferKind, then_ttl: bool)
    requires
        db.wf(),
        all_registered(db.buffer(kind)),
    ensures
        run(
            scene(chain_step(begin_step(db, kind, then_ttl), then_ttl), disk),
            all_well(sync_length(db.counters) + tables(db.buffer(kind).entries).len()),
        ) == scene(
            chain_step(
                (
                    DbView { counters: synced(db.counters), ..db }.with_buffer(
                        kind,
                        db.buffer(kind).collected(),
                    ),
                    StoreActionView::Done(Ok(())),
                ),
                then_ttl,
            ),
            store_batches(
                sync_disk(db.counters, disk),
                kind,
                batches(db.buffer(kind).entries),
            ),
        ),
{
    let buffer = db.buffer(kind);
    let n = tables(buffer.entries).len();
    lemma_tables_registered(buffer);
    lemma_run_flush(db, disk, kind, then_ttl, n);
    assert(batches(buffer.entries).take(n as int) =~= batches(buffer.entries));
    assert(batches(buffer.entries).skip(n as int).len() == 0);
}

// ---------------------------------------------------------------------------
// Operations that end without error
// ---------------------------------------------------------------------------

/// An operation that is over stays as it is.
pub(crate) proof fn lemma_run_done(s: Scene, outcomes: Seq<Result<(), DbErrorView>>)
    requires
        s.action is Done,
    ensures
        run(s, outcomes) == s,
    decreases outcomes.len(),
{
    if outcomes.len() > 0 {
        lemma_run_done(s, outcomes.drop_first());
    }
}

/// Where an operation ends without error, all of its actions went well.
proof fn lemma_run_ok(s: Scene, outcomes: Seq<Result<(), DbErrorView>>)
    requires
        run(s, outcomes).action == StoreActionView::Done(Ok(())),
    ensures
        run(s, outcomes) == run(s, all_well(outcomes.len())),
    decreases outcomes.len(),
{
    if outcomes.len() > 0 {
        if s.action is Done {
            lemma_run_done(s, outcomes);
            lemma_run_done(s, all_well(outcomes.len()));
        } else {
            let next = advance(s, outcomes[0]);
            if outcomes[0] is Err {
                lemma_run_done(next, outcomes.drop_first());
            } else {
                lemma_run_one(s, outcomes.len());
                lemma_run_ok(next, outcomes.drop_first());
            }
        }
    } else {
        assert(all_well(0) =~= outcomes);
    }
}

/// Where an operation ends without error, it ends as it does if all goes well.
proof fn lemma_same_end(s: Scene, outcomes: Seq<Result<(), DbErrorView>>, n: nat)
    requires
        run(s, outcomes).action == StoreActionView::Done(Ok(())),
        run(s, all_well(n)).action is Done,
    ensures
        run(s, outcomes) == run(s, all_well(n)),
{
    let m = outcomes.len();
    lemma_run_ok(s, outcomes);
    if m <= n {
        lemma_run_parts(s, m, (n - m) as nat);
        lemma_run_done(run(s, all_well(m)), all_well((n - m) as nat));
    } else {
        lemma_run_parts(s, n, (m - n) as nat);
        lemma_run_done(run(s, all_well(n)), all_well((m - n) as nat));
    }
}

// ---------------------------------------------------------------------------
// Tables that are not registered
// ---------------------------------------------------------------------------

/// The table at `i` is the first of a buffer that is not registered.
pub open spec fn first_unregistered(buffer: BufferView, i: nat) -> bool {
    &&& i < tables(buffer.entries).len()
    &&& slot_of(buffer.targets, tables(buffer.entries)[i as int]) is None
    &&& forall|j: int|
        0 <= j < i ==> slot_of(buffer.targets, #[trigger] tables(buffer.entries)[j]) is Some
}

/// Of the tables up to one that is not registered, one is the first.
proof fn lemma_least_unregistered(buffer: BufferView, j: nat) -> (i: nat)
    requires
        j < tables(buffer.entries).len(),
        slot_of(buffer.targets, tables(buffer.entries)[j as int]) is None,
    ensures
        first_unregistered(buffer, i),
    decreases j,
{
    let names = tables(buffer.entries);
    if exists|k: int| 0 <= k < j && slot_of(buffer.targets, #[trigger] names[k]) is None {
        let k = choose|k: int| 0 <= k < j && slot_of(buffer.targets, #[trigger] names[k]) is None;
        lemma_least_unregistered(buffer, k as nat)
    } else {
        j
    }
}

/// A buffer with entries of unregistered tables has a first such table.
proof fn lemma_first_unregistered(buffer: BufferView) -> (i: nat)
    requires
        !all_registered(buffer),
    ensures
        first_unregistered(buffer, i),
{
    let e = choose|e: int|
        0 <= e < buffer.entries.len() && slot_of(
            buffer.targets,
            (#[trigger] buffer.entries[e]).table,
        ) is None;
    let names = tables(buffer.entries);
    let name = buffer.entries[e].table;
    crate::buffer::lemma_tables(buffer.entries);
    assert(names.contains(name));
    let j = choose|j: int| 0 <= j < names.len() && names[j] == name;
    lemma_least_unregistered(buffer, j as nat)
}

/// A flush of one buffer that is asked for by a write stores the tables up to the
/// first one that is not registered and then fails, naming that one.
pub proof fn law_unregistered_table_is_reported(
    db: DbView,
    disk: Disk,
    kind: BufferKind,
    i: nat,
)
    requires
        db.wf(),
        first_unregistered(db.buffer(kind), i),
    ensures
        ({
            let end = run(
                scene(begin_step(db, kind, false), disk),
                all_well(sync_length(db.counters) + i),
            );
            &&& end.action == StoreActionView::Done(
                Err(DbErrorView::TableNotFound(tables(db.buffer(kind).entries)[i as int])),
            )
            &&& end.disk == store_batches(
                sync_disk(db.counters, disk),
                kind,
                batches(db.buffer(kind).entries).take(i as int),
            )
        }),
{
    lemma_run_flush(db, disk, kind, false, i);
    let left = batches(db.buffer(kind).entries).skip(i as int);
    assert(left[0].table == tables(db.buffer(kind).entries)[i as int]);
}

/// A flush of both buffers stores the tables up to the first one that is not
/// registered, those of the regular buffer before those of the TTL buffer, and
/// then fails, naming that one.
pub proof fn law_flush_reports_unregistered_table(
    db: DbView,
    disk: Disk,
    kind: BufferKind,
    i: nat,
)
    requires
        db.wf(),
        kind is Ttl ==> all_registered(db.regular),
        first_unregistered(db.buffer(kind), i),
    ensures
        ({
            let synced_disk = sync_disk(db.counters, disk);
            let (before, from) = match kind {
                BufferKind::Regular => (0nat, synced_disk),
                BufferKind::Ttl => (
                    tables(db.regular.entries).len(),
                    store_batches(synced_disk, BufferKind::Regular, batches(db.regular.entries)),
                ),
            };
            let end = run(
                scene(flush_step(db), disk),
                all_well(sync_length(db.counters) + before + i),
            );
            &&& end.action == StoreActionView::Done(
                Err(DbErrorView::TableNotFound(tables(db.buffer(kind).entries)[i as int])),
            )
            &&& end.disk == store_batches(
                from,
                kind,
                batches(db.buffer(kind).entries).take(i as int),
            )
        }),
{
    let left = batches(db.buffer(kind).entries).skip(i as int);
    assert(left[0].table == tables(db.buffer(kind).entries)[i as int]);
    match kind {
        BufferKind::Regular => {
            lemma_run_flush(db, disk, kind, true, i);
        },
        BufferKind::Ttl => {
            lemma_flush_regular(db, disk, i);
            let (db1, disk1) = after_regular(db, disk);
            lemma_run_flush(db1, disk1, kind, false, i);
        },
    }
}

// ---------------------------------------------------------------------------
// A flush of both buffers
// ---------------------------------------------------------------------------

/// The handle and the disk after the regular buffer was flushed.
spec fn after_regular(db: DbView, disk: Disk) -> (DbView, Disk) {
    (
        DbView { regular: db.regular.collected(), counters: synced(db.counters), ..db },
        store_batches(
            sync_disk(db.counters, disk),
            BufferKind::Regular,
            batches(db.regular.entries),
        ),
    )
}

/// A flush of both buffers, with the regular tables registered, comes to the TTL
/// buffer.
proof fn lemma_flush_regular(db: DbView, disk: Disk, n: nat)
    requires
        db.wf(),
        all_registered(db.regular),
    ensures
        run(
            scene(flush_step(db), disk),
            all_well(sync_length(db.counters) + tables(db.regular.entries).len() + n),
        ) == run(
            scene(
                begin_step(after_regular(db, disk).0, BufferKind::Ttl, false),
                after_regular(db, disk).1,
            ),
            all_well(n),
        ),
        after_regular(db, disk).0.wf(),
        sync_length(after_regular(db, disk).0.counters) == 0,
{
    let a = sync_length(db.counters) + tables(db.regular.entries).len();
    lemma_flush_one(db, disk, BufferKind::Regular, true);
    lemma_run_parts(scene(flush_step(db), disk), a, n);
}

/// How many actions a flush of both buffers takes.
pub open spec fn flush_length(db: DbView) -> nat {
    sync_length(db.counters) + tables(db.regular.entries).len() + tables(db.ttl.entries).len()
}

/// The state after some actions of a flush of both buffers, with the given
/// outcomes.
pub open spec fn flush_run(
    db: DbView,
    disk: Disk,
    outcomes: Seq<Result<(), DbErrorView>>,
) -> Scene {
    run(scene(flush_step(db), disk), outcomes)
}

/// The end of a flush of both buffers of registered tables, if all goes well.
proof fn lemma_flush_both(db: DbView, disk: Disk)
    requires
        db.wf(),
        all_registered(db.regular),
        all_registered(db.ttl),
    ensures
        flush_run(db, disk, all_well(flush_length(db))) == (Scene {
            db: DbView {
                regular: db.regular.collected(),
                ttl: db.ttl.collected(),
                counters: synced(db.counters),
            },
            disk: store_batches(
                after_regular(db, disk).1,
                BufferKind::Ttl,
                batches(db.ttl.entries),
            ),
            action: StoreActionView::Done(Ok(())),
        }),
{
    let (db1, disk1) = after_regular(db, disk);
    lemma_flush_regular(db, disk, tables(db.ttl.entries).len());
    lemma_flush_one(db1, disk1, BufferKind::Ttl, false);
}

/// A flush of both buffers ends without error if every pending table is registered
/// and every action goes well.
pub proof fn law_flush_succeeds(db: DbView, disk: Disk)
    requires
        db.wf(),
        all_registered(db.regular),
        all_registered(db.ttl),
    ensures
        flush_run(db, disk, all_well(flush_length(db))).action == StoreActionView::Done(Ok(())),
{
    lemma_flush_both(db, disk);
}

/// A flush of both buffers ends without error only if every pending table is
/// registered.
pub proof fn law_flush_needs_registered_tables(
    db: DbView,
    disk: Disk,
    outcomes: Seq<Result<(), DbErrorView>>,
)
    requires
        db.wf(),
        flush_run(db, disk, outcomes).action == StoreActionView::Done(Ok(())),
    ensures
        all_registered(db.regular),
        all_registered(db.ttl),
{
    let start = scene(flush_step(db), disk);
    if !all_registered(db.regular) {
        let i = lemma_first_unregistered(db.regular);
        law_flush_reports_unregistered_table(db, disk, BufferKind::Regular, i);
        lemma_same_end(start, outcomes, sync_length(db.counters) + 0 + i);
    } else if !all_registered(db.ttl) {
        let i = lemma_first_unregistered(db.ttl);
        law_flush_reports_unregistered_table(db, disk, BufferKind::Ttl, i);
        lemma_same_end(
            start,
            outcomes,
            sync_length(db.counters) + tables(db.regular.entries).len() + i,
        );
    }
}

/// A flush of both buffers that ends without error leaves both buffers empty,
/// every pending key with its newest value on disk, everything else on disk as it
/// was, and the counters on disk.
pub proof fn law_flush_stores_everything(
    db: DbView,
    disk: Disk,
    outcomes: Seq<Result<(), DbErrorView>>,
)
    requires
        db.wf(),
        flush_run(db, disk, outcomes).action == StoreActionView::Done(Ok(())),
    ensures
        flush_run(db, disk, outcomes).db == (DbView {
            regular: db.regular.collected(),
            ttl: db.ttl.collected(),
            counters: synced(db.counters),
        }),
        flush_run(db, disk, outcomes).disk.counters == sync_disk(db.counters, disk).counters,
        forall|kind: BufferKind, table: Seq<char>, key: Seq<u8>| #[trigger]
            stored(flush_run(db, disk, outcomes).disk, kind, table, key) == match lookup(
                db.buffer(kind).entries,
                table,
                key,
            ) {
                Some(v) => Some(v),
                None => stored(disk, kind, table, key),
            },
{
    law_flush_needs_registered_tables(db, disk, outcomes);
    lemma_flush_both(db, disk);
    lemma_same_end(scene(flush_step(db), disk), outcomes, flush_length(db));
    let end = flush_run(db, disk, outcomes);
    let disk0 = sync_disk(db.counters, disk);
    let disk1 = after_regular(db, disk).1;
    assert forall|kind: BufferKind, table: Seq<char>, key: Seq<u8>| #[trigger]
        stored(end.disk, kind, table, key) == match lookup(db.buffer(kind).entries, table, key) {
            Some(v) => Some(v),
            None => stored(disk, kind, table, key),
        } by {
        crate::disk::lemma_batches_store_newest(
            disk0,
            BufferKind::Regular,
            db.regular.entries,
            kind,
            table,
            key,
        );
        crate::disk::lemma_batches_store_newest(
            disk1,
            BufferKind::Ttl,
            db.ttl.entries,
            kind,
            table,
            key,
        );
        assert(stored(disk0, kind, table, key) == stored(disk, kind, table, key));
    }
    crate::disk::lemma_batches_store_newest(
        disk0,
        BufferKind::Regular,
        db.regular.entries,
        BufferKind::Regular,
        Seq::empty(),
        Seq::empty(),
    );
    crate::disk::lemma_batches_store_newest(
        disk1,
        BufferKind::Ttl,
        db.ttl.entries,
        BufferKind::Ttl,
        Seq::empty(),
        Seq::empty(),
    );
}

/// A flush of both buffers that ends without error changes no read: what the
/// buffers gave before, the disk gives after. Left out are the keys that wait in
/// the TTL buffer alone with a value other than the one in the regular table on
/// disk, as a read of a regular table does not look into TTL tables on disk.
pub proof fn law_flush_keeps_reads(
    db: DbView,
    disk: Disk,
    outcomes: Seq<Result<(), DbErrorView>>,
    table: Seq<char>,
    key: Seq<u8>,
)
    requires
        db.wf(),
        flush_run(db, disk, outcomes).action == StoreActionView::Done(Ok(())),
        lookup(db.regular.entries, table, key) is None && lookup(db.ttl.entries, table, key) is Some
            ==> lookup(db.ttl.entries, table, key) == stored(
            disk,
            BufferKind::Regular,
            table,
            key,
        ),
    ensures
        read(
            flush_run(db, disk, outcomes).db,
            flush_run(db, disk, outcomes).disk,
            table,
            key,
        ) == read(db, disk, table, key),
{
    law_flush_stores_everything(db, disk, outcomes);
    let end = flush_run(db, disk, outcomes);
    assert(stored(end.disk, BufferKind::Regular, table, key) == match lookup(
        db.regular.entries,
        table,
        key,
    ) {
        Some(v) => Some(v),
        None => stored(disk, BufferKind::Regular, table, key),
    });
}

// ---------------------------------------------------------------------------
// A write
// ---------------------------------------------------------------------------

/// Nothing is found where nothing was written, and one more write changes the
/// lookup of its own key only.
pub proof fn law_push_then_lookup(
    entries: Seq<EntryView>,
    e: EntryView,
    table: Seq<char>,
    key: Seq<u8>,
)
    ensures
        lookup(Seq::empty(), table, key) is None,
        lookup(entries.push(e), table, key) == if e.table == table && e.key == key {
            Some(e.value)
        } else {
            lookup(entries, table, key)
        },
{
    crate::buffer::lemma_newest(entries, table, key);
    assert(entries.push(e).drop_last() =~= entries);
}

/// The handle with one more entry in a buffer.
pub open spec fn pushed(
    db: DbView,
    kind: BufferKind,
    table: Seq<char>,
    key: Seq<u8>,
    value: Seq<u8>,
) -> DbView {
    db.with_buffer(kind, db.buffer(kind).pushed(table, key, value))
}

/// How many actions a write takes: none if it begins no flush.
pub open spec fn write_length(pushed: DbView, kind: BufferKind, force: bool) -> nat {
    if force || pushed.buffer(kind).full() {
        sync_length(pushed.counters) + tables(pushed.buffer(kind).entries).len()
    } else {
        0
    }
}

/// The state after some actions of a write, with the given outcomes.
pub open spec fn write_run(
    db: DbView,
    disk: Disk,
    kind: BufferKind,
    e: EntryView,
    force: bool,
    outcomes: Seq<Result<(), DbErrorView>>,
) -> Scene {
    run(scene(write_step(db, kind, e.table, e.key, e.value, force), disk), outcomes)
}

/// A write ends without error if it begins no flush, or if every pending table of
/// its buffer is registered and every action goes well.
pub proof fn law_write_succeeds(
    db: DbView,
    disk: Disk,
    kind: BufferKind,
    e: EntryView,
    force: bool,
)
    requires
        db.wf(),
        ({
            let buffer = db.buffer(kind).pushed(e.table, e.key, e.value);
            force || buffer.full() ==> all_registered(buffer)
        }),
    ensures
        ({
            let n = write_length(pushed(db, kind, e.table, e.key, e.value), kind, force);
            write_run(db, disk, kind, e, force, all_well(n)).action == StoreActionView::Done(
                Ok(()),
            )
        }),
{
    let p = pushed(db, kind, e.table, e.key, e.value);
    if force || p.buffer(kind).full() {
        lemma_flush_one(p, disk, kind, false);
    }
}

/// A flush of one buffer that ends without error stores all of it.
proof fn lemma_flush_one_ok(
    db: DbView,
    disk: Disk,
    kind: BufferKind,
    outcomes: Seq<Result<(), DbErrorView>>,
)
    requires
        db.wf(),
        run(scene(begin_step(db, kind, false), disk), outcomes).action == StoreActionView::Done(
            Ok(()),
        ),
    ensures
        run(scene(begin_step(db, kind, false), disk), outcomes) == (Scene {
            db: DbView { counters: synced(db.counters), ..db }.with_buffer(
                kind,
                db.buffer(kind).collected(),
            ),
            disk: store_batches(
                sync_disk(db.counters, disk),
                kind,
                batches(db.buffer(kind).entries),
            ),
            action: StoreActionView::Done(Ok(())),
        }),
{
    let start = scene(begin_step(db, kind, false), disk);
    if !all_registered(db.buffer(kind)) {
        let i = lemma_first_unregistered(db.buffer(kind));
        law_unregistered_table_is_reported(db, disk, kind, i);
        lemma_same_end(start, outcomes, sync_length(db.counters) + i);
    }
    lemma_flush_one(db, disk, kind, false);
    lemma_same_end(
        start,
        outcomes,
        sync_length(db.counters) + tables(db.buffer(kind).entries).len(),
    );
}

/// A key waits in both buffers, with different values: a read gives the one in the
/// regular buffer, until that buffer is flushed.
pub open spec fn shadowed(db: DbView, table: Seq<char>, key: Seq<u8>) -> bool {
    &&& lookup(db.regular.entries, table, key) is Some
    &&& lookup(db.ttl.entries, table, key) is Some
    &&& lookup(db.regular.entries, table, key) != lookup(db.ttl.entries, table, key)
}

/// After a regular write that ends without error, a read gives the value that was
/// written, and reads of other keys give what they gave before. Where the write
/// flushes the buffer, keys that wait in both buffers with different values are
/// left out.
pub proof fn law_write_then_read(
    db: DbView,
    disk: Disk,
    e: EntryView,
    outcomes: Seq<Result<(), DbErrorView>>,
    table: Seq<char>,
    key: Seq<u8>,
)
    requires
        db.wf(),
        write_run(db, disk, BufferKind::Regular, e, false, outcomes).action
            == StoreActionView::Done(Ok(())),
        ({
            let p = pushed(db, BufferKind::Regular, e.table, e.key, e.value);
            p.regular.full() ==> !shadowed(p, table, key)
        }),
    ensures
        ({
            let end = write_run(db, disk, BufferKind::Regular, e, false, outcomes);
            read(end.db, end.disk, table, key) == if e.table == table && e.key == key {
                Some(e.value)
            } else {
                read(db, disk, table, key)
            }
        }),
{
    let kind = BufferKind::Regular;
    let p = pushed(db, kind, e.table, e.key, e.value);
    law_push_then_lookup(db.regular.entries, e, table, key);
    assert(p.regular.entries == db.regular.entries.push(e));
    if p.regular.full() {
        lemma_flush_one_ok(p, disk, kind, outcomes);
        let disk0 = sync_disk(p.counters, disk);
        crate::disk::lemma_batches_store_newest(disk0, kind, p.regular.entries, kind, table, key);
        assert(stored(disk0, kind, table, key) == stored(disk, kind, table, key));
    } else {
        lemma_run_done(
            scene(write_step(db, kind, e.table, e.key, e.value, false), disk),
            outcomes,
        );
    }
}

/// A write that flushes its buffer and ends without error leaves the newest value
/// of every key of that buffer, the written one included, on disk, and every other
/// key of that kind as it was.
pub proof fn law_flushing_write_stores_everything(
    db: DbView,
    disk: Disk,
    kind: BufferKind,
    e: EntryView,
    force: bool,
    outcomes: Seq<Result<(), DbErrorView>>,
    table: Seq<char>,
    key: Seq<u8>,
)
    requires
        db.wf(),
        force || pushed(db, kind, e.table, e.key, e.value).buffer(kind).full(),
        write_run(db, disk, kind, e, force, outcomes).action == StoreActionView::Done(Ok(())),
    ensures
        stored(write_run(db, disk, kind, e, force, outcomes).disk, kind, table, key)
            == match lookup(db.buffer(kind).entries.push(e), table, key) {
            Some(v) => Some(v),
            None => stored(disk, kind, table, key),
        },
        write_run(db, disk, kind, e, force, outcomes).db.buffer(kind).entries.len() == 0,
{
    let p = pushed(db, kind, e.table, e.key, e.value);
    let disk0 = sync_disk(p.counters, disk);
    assert(p.buffer(kind).entries == db.buffer(kind).entries.push(e));
    lemma_flush_one_ok(p, disk, kind, outcomes);
    crate::disk::lemma_batches_store_newest(
        disk0,
        kind,
        p.buffer(kind).entries,
        kind,
        table,
        key,
    );
    assert(stored(disk0, kind, table, key) == stored(disk, kind, table, key));
}

/// A read of the key that was written, under the conditions of
/// [`law_write_then_read`], gives bytes from which the written value is read back;
/// a read of any other key of the same type gives what it gave before. Values
/// whose encoding does not keep all of them are left out.
pub proof fn law_written_value_is_read_back<K: StoredValue, V: StoredValue>(
    db: DbView,
    disk: Disk,
    table: Seq<char>,
    key: K::V,
    value: V::V,
    outcomes: Seq<Result<(), DbErrorView>>,
    other: K::V,
)
    requires
        db.wf(),
        V::lossless(value),
        ({
            let e = EntryView { table, key: K::encode(key), value: V::encode(value) };
            let p = pushed(db, BufferKind::Regular, e.table, e.key, e.value);
            &&& write_run(db, disk, BufferKind::Regular, e, false, outcomes).action
                == StoreActionView::Done(Ok(()))
            &&& p.regular.full() ==> !shadowed(p, table, K::encode(key)) && !shadowed(
                p,
                table,
                K::encode(other),
            )
        }),
    ensures
        ({
            let e = EntryView { table, key: K::encode(key), value: V::encode(value) };
            let end = write_run(db, disk, BufferKind::Regular, e, false, outcomes);
            &&& read(end.db, end.disk, table, K::encode(key)) matches Some(bytes)
                && V::readable(bytes) && V::decode(bytes) == value
            &&& other != key ==> read(end.db, end.disk, table, K::encode(other)) == read(
                db,
                disk,
                table,
                K::encode(other),
            )
        }),
{
    let e = EntryView { table, key: K::encode(key), value: V::encode(value) };
    law_write_then_read(db, disk, e, outcomes, table, K::encode(key));
    law_write_then_read(db, disk, e, outcomes, table, K::encode(other));
    V::lemma_decode_undoes_encode(value);
    if K::encode(other) == e.key {
        K::lemma_encode_injective(other, key);
    }
}

// ---------------------------------------------------------------------------
// Operations, however they go
// ---------------------------------------------------------------------------

/// The targets of each buffer have the kind of the buffer.
spec fn kinds_match(db: DbView) -> bool {
    &&& forall|i: int|
        0 <= i < db.regular.targets.len() ==> (#[trigger] db.regular.targets[i]).kind is Regular
    &&& forall|i: int|
        0 <= i < db.ttl.targets.len() ==> (#[trigger] db.ttl.targets[i]).kind is Ttl
}

/// An operation that flushes the buffer `kind` alone: once it asks for a batch, the
/// buffer is empty.
spec fn flushing_one(s: Scene, kind: BufferKind) -> bool {
    &&& kinds_match(s.db)
    &&& match s.action {
        StoreActionView::Counters { rest, .. } => rest.kind == kind && !rest.then_ttl
            && rest.stage is Counters,
        StoreActionView::Batch { target, rest, .. } => kind_of(target) == kind && rest.kind == kind
            && !rest.then_ttl && rest.stage is Tables && s.db.buffer(kind).entries.len() == 0,
        StoreActionView::Done(_) => true,
    }
}

/// Performing an action keeps to that.
proof fn lemma_advance_flushing_one(s: Scene, kind: BufferKind, outcome: Result<(), DbErrorView>)
    requires
        flushing_one(s, kind),
    ensures
        flushing_one(advance(s, outcome), kind),
{
    crate::buffer::lemma_slots(s.db.regular.targets);
    crate::buffer::lemma_slots(s.db.ttl.targets);
}

/// A flush of one buffer that begins keeps to that.
proof fn lemma_begin_flushing_one(db: DbView, disk: Disk, kind: BufferKind)
    requires
        db.wf(),
    ensures
        flushing_one(scene(begin_step(db, kind, false), disk), kind),
{
    crate::buffer::lemma_slots(db.regular.targets);
    crate::buffer::lemma_slots(db.ttl.targets);
}

/// Performing actions keeps to that, and touches neither the other buffer nor the
/// tables of the other kind.
proof fn lemma_flushing_one(
    s: Scene,
    kind: BufferKind,
    other: BufferKind,
    outcomes: Seq<Result<(), DbErrorView>>,
)
    requires
        flushing_one(s, kind),
        other != kind,
    ensures
        flushing_one(run(s, outcomes), kind),
        run(s, outcomes).db.buffer(other) == s.db.buffer(other),
        forall|table: Seq<char>, key: Seq<u8>| #[trigger]
            stored(run(s, outcomes).disk, other, table, key) == stored(s.disk, other, table, key),
    decreases outcomes.len(),
{
    if outcomes.len() > 0 {
        let next = advance(s, outcomes[0]);
        lemma_advance_flushing_one(s, kind, outcomes[0]);
        assert forall|table: Seq<char>, key: Seq<u8>| #[trigger]
            stored(next.disk, other, table, key) == stored(s.disk, other, table, key) by {
            if let StoreActionView::Batch { slot, target, batch, .. } = s.action {
                crate::disk::lemma_store_pairs(
                    s.disk,
                    kind,
                    s.db.buffer(kind).targets[slot].name,
                    batch.pairs,
                    other,
                    table,
                    key,
                );
            }
        }
        lemma_flushing_one(next, kind, other, outcomes.drop_first());
    }
}

/// The counters changed since they were last stored, and the attempt of a flush to
/// store them, which is its first action, fails.
pub open spec fn counters_fail(
    counters: CounterView,
    outcomes: Seq<Result<(), DbErrorView>>,
) -> bool {
    counters.values != counters.flushed && outcomes.len() > 0 && outcomes[0] is Err
}

/// An operation that flushes the buffer `kind` alone and has brought the counters
/// to disk: the buffer is empty.
spec fn emptied_one(s: Scene, kind: BufferKind) -> bool {
    s.action !is Counters && flushing_one(s, kind) && s.db.buffer(kind).entries.len() == 0
}

/// Performing actions keeps to that.
proof fn lemma_emptied_one(s: Scene, kind: BufferKind, outcomes: Seq<Result<(), DbErrorView>>)
    requires
        emptied_one(s, kind),
    ensures
        emptied_one(run(s, outcomes), kind),
    decreases outcomes.len(),
{
    if outcomes.len() > 0 {
        lemma_advance_flushing_one(s, kind, outcomes[0]);
        lemma_emptied_one(advance(s, outcomes[0]), kind, outcomes.drop_first());
    }
}

/// A flush of one buffer that is over has emptied it, unless the counters could not
/// be stored.
pub(crate) proof fn lemma_flush_empties_buffer(
    db: DbView,
    disk: Disk,
    kind: BufferKind,
    outcomes: Seq<Result<(), DbErrorView>>,
)
    requires
        db.wf(),
        run(scene(begin_step(db, kind, false), disk), outcomes).action is Done,
        !counters_fail(db.counters, outcomes),
    ensures
        run(scene(begin_step(db, kind, false), disk), outcomes).db.buffer(kind).entries.len() == 0,
{
    let start = scene(begin_step(db, kind, false), disk);
    lemma_begin_flushing_one(db, disk, kind);
    if db.counters.values == db.counters.flushed {
        lemma_emptied_one(start, kind, outcomes);
    } else {
        lemma_advance_flushing_one(start, kind, outcomes[0]);
        lemma_emptied_one(advance(start, outcomes[0]), kind, outcomes.drop_first());
    }
}

/// However the actions of a write go, when it is over its buffer has not reached
/// the limit, if it had not before; and a write that flushes its buffer, because
/// the buffer is full or because it forces the flush (such as one that expires
/// before the next periodic flush), leaves it empty. A flush whose counters could
/// not be stored is left out, as it takes no entries.
pub proof fn law_write_bounds_buffer(
    db: DbView,
    disk: Disk,
    kind: BufferKind,
    e: EntryView,
    force: bool,
    outcomes: Seq<Result<(), DbErrorView>>,
)
    requires
        db.wf(),
        db.buffer(kind).entries.len() < BUFFER_MAX_ENTRIES,
        write_run(db, disk, kind, e, force, outcomes).action is Done,
        force || pushed(db, kind, e.table, e.key, e.value).buffer(kind).full() ==> !counters_fail(
            db.counters,
            outcomes,
        ),
    ensures
        write_run(db, disk, kind, e, force, outcomes).db.buffer(kind).entries.len()
            < BUFFER_MAX_ENTRIES,
        force || pushed(db, kind, e.table, e.key, e.value).buffer(kind).full() ==> write_run(
            db,
            disk,
            kind,
            e,
            force,
            outcomes,
        ).db.buffer(kind).entries.len() == 0,
{
    let start = scene(write_step(db, kind, e.table, e.key, e.value, force), disk);
    let p = pushed(db, kind, e.table, e.key, e.value);
    if force || p.buffer(kind).full() {
        lemma_flush_empties_buffer(p, disk, kind, outcomes);
    } else {
        lemma_run_done(start, outcomes);
    }
}

/// A write that flushes its buffer and whose counters cannot be stored ends with
/// that error, and loses nothing: the written entry and all others stay pending,
/// and the disk is as it was.
pub proof fn law_failed_counters_fail_the_write(
    db: DbView,
    disk: Disk,
    kind: BufferKind,
    e: EntryView,
    force: bool,
    error: DbErrorView,
    outcomes: Seq<Result<(), DbErrorView>>,
)
    requires
        db.wf(),
        force || pushed(db, kind, e.table, e.key, e.value).buffer(kind).full(),
        counters_fail(db.counters, outcomes),
        outcomes[0] == Err::<(), DbErrorView>(error),
    ensures
        write_run(db, disk, kind, e, force, outcomes).action == StoreActionView::Done(Err(error)),
        write_run(db, disk, kind, e, force, outcomes).disk == disk,
        write_run(db, disk, kind, e, force, outcomes).db == pushed(
            db,
            kind,
            e.table,
            e.key,
            e.value,
        ),
{
    let p = pushed(db, kind, e.table, e.key, e.value);
    let start = scene(write_step(db, kind, e.table, e.key, e.value, force), disk);
    assert(p.with_buffer(kind, p.buffer(kind).flush_begun()) =~= p);
    lemma_run_done(advance(start, outcomes[0]), outcomes.drop_first());
}

/// However the actions of a write go, and at any time during it, the other buffer
/// and the tables of the other kind on disk are as they were.
pub proof fn law_write_leaves_other_kind(
    db: DbView,
    disk: Disk,
    kind: BufferKind,
    e: EntryView,
    force: bool,
    outcomes: Seq<Result<(), DbErrorView>>,
    other: BufferKind,
)
    requires
        db.wf(),
        other != kind,
    ensures
        write_run(db, disk, kind, e, force, outcomes).db.buffer(other) == db.buffer(other),
        forall|table: Seq<char>, key: Seq<u8>| #[trigger]
            stored(write_run(db, disk, kind, e, force, outcomes).disk, other, table, key) == stored(
                disk,
                other,
                table,
                key,
            ),
{
    let start = scene(write_step(db, kind, e.table, e.key, e.value, force), disk);
    let p = pushed(db, kind, e.table, e.key, e.value);
    if force || p.buffer(kind).full() {
        lemma_begin_flushing_one(p, disk, kind);
        lemma_flushing_one(start, kind, other, outcomes);
    } else {
        lemma_run_done(start, outcomes);
    }
}

/// However the actions of a TTL write go, and at any time during it, a read of a
/// regular table gives what it gave before: of every key that waits in the regular
/// buffer, or that does not wait in the TTL buffer. Where the write begins no
/// flush, this holds of every key but the written one.
pub proof fn law_ttl_write_keeps_regular_reads(
    db: DbView,
    disk: Disk,
    e: EntryView,
    force: bool,
    outcomes: Seq<Result<(), DbErrorView>>,
    table: Seq<char>,
    key: Seq<u8>,
)
    requires
        db.wf(),
        ({
            let p = pushed(db, BufferKind::Ttl, e.table, e.key, e.value);
            ||| lookup(db.regular.entries, table, key) is Some
            ||| lookup(p.ttl.entries, table, key) is None
            ||| !force && !p.ttl.full() && !(e.table == table && e.key == key)
        }),
    ensures
        ({
            let s = write_run(db, disk, BufferKind::Ttl, e, force, outcomes);
            read(s.db, s.disk, table, key) == read(db, disk, table, key)
        }),
{
    let kind = BufferKind::Ttl;
    let p = pushed(db, kind, e.table, e.key, e.value);
    let start = scene(write_step(db, kind, e.table, e.key, e.value, force), disk);
    let s = write_run(db, disk, kind, e, force, outcomes);
    law_write_leaves_other_kind(db, disk, kind, e, force, outcomes, BufferKind::Regular);
    assert(s.db.buffer(BufferKind::Regular) == s.db.regular);
    assert(stored(s.disk, BufferKind::Regular, table, key) == stored(
        disk,
        BufferKind::Regular,
        table,
        key,
    ));
    law_push_then_lookup(db.ttl.entries, e, table, key);
    assert(p.ttl.entries == db.ttl.entries.push(e));
    if force || p.ttl.full() {
        lemma_begin_flushing_one(p, disk, kind);
        lemma_entries_kept_or_taken(start, kind, outcomes);
    } else {
        lemma_run_done(start, outcomes);
    }
}

/// While one buffer is flushed, its entries are either all there or all taken.
proof fn lemma_entries_kept_or_taken(
    s: Scene,
    kind: BufferKind,
    outcomes: Seq<Result<(), DbErrorView>>,
)
    requires
        flushing_one(s, kind),
    ensures
        ({
            let after = run(s, outcomes).db.buffer(kind).entries;
            after == s.db.buffer(kind).entries || after.len() == 0
        }),
    decreases outcomes.len(),
{
    if outcomes.len() > 0 {
        lemma_advance_flushing_one(s, kind, outcomes[0]);
        lemma_entries_kept_or_taken(advance(s, outcomes[0]), kind, outcomes.drop_first());
    }
}

/// An operation that flushes both buffers and has brought the counters to disk.
spec fn emptied_both(s: Scene) -> bool {
    let ttl_empty = s.db.ttl.entries.len() == 0;
    &&& s.db.regular.entries.len() == 0
    &&& s.db.ttl.on_flush
    &&& s.db.counters.values == s.db.counters.flushed
    &&& match s.action {
        StoreActionView::Counters { .. } => false,
        StoreActionView::Batch { rest, .. } => rest.stage is Tables && match rest.kind {
            BufferKind::Regular => rest.then_ttl,
            BufferKind::Ttl => !rest.then_ttl && ttl_empty,
        },
        StoreActionView::Done(Ok(_)) => ttl_empty,
        StoreActionView::Done(Err(_)) => true,
    }
}

/// Performing actions keeps to that.
proof fn lemma_emptied_both(s: Scene, outcomes: Seq<Result<(), DbErrorView>>)
    requires
        emptied_both(s),
    ensures
        emptied_both(run(s, outcomes)),
    decreases outcomes.len(),
{
    if outcomes.len() > 0 {
        lemma_emptied_both(advance(s, outcomes[0]), outcomes.drop_first());
    }
}

/// However the actions of a flush of both buffers go, when it is over the regular
/// buffer is empty; and so is the TTL buffer, if it ended without error. A flush
/// whose counters could not be stored is left out, as it takes no entries.
pub proof fn law_flush_empties_buffers(
    db: DbView,
    disk: Disk,
    outcomes: Seq<Result<(), DbErrorView>>,
)
    requires
        db.wf(),
        flush_run(db, disk, outcomes).action is Done,
        !counters_fail(db.counters, outcomes),
    ensures
        flush_run(db, disk, outcomes).db.regular.entries.len() == 0,
        flush_run(db, disk, outcomes).action == StoreActionView::Done(Ok(())) ==> flush_run(
            db,
            disk,
            outcomes,
        ).db.ttl.entries.len() == 0,
{
    let start = scene(flush_step(db), disk);
    if db.counters.values == db.counters.flushed {
        lemma_emptied_both(start, outcomes);
    } else {
        lemma_emptied_both(advance(start, outcomes[0]), outcomes.drop_first());
    }
}

// ---------------------------------------------------------------------------
// Counters
// ---------------------------------------------------------------------------

/// The disk holds the counters that were last flushed; where the counters are
/// being stored they are the current ones; and where a batch is being stored, or
/// the operation is over without error, the current ones are on disk.
spec fn counters_lead(s: Scene) -> bool {
    &&& s.db.wf()
    &&& disk_counters(s.disk) == s.db.counters.flushed
    &&& match s.action {
        StoreActionView::Counters { blob, rest } => blob == encode_counters(s.db.counters.values)
            && rest.stage == FlushStageView::Counters(s.db.counters.values),
        StoreActionView::Batch { rest, .. } => s.db.counters.values == s.db.counters.flushed
            && rest.stage is Tables,
        StoreActionView::Done(Ok(_)) => s.db.counters.values == s.db.counters.flushed,
        StoreActionView::Done(Err(_)) => true,
    }
}

/// A flush that begins keeps to that.
proof fn lemma_begin_counters_lead(db: DbView, disk: Disk, kind: BufferKind, then_ttl: bool)
    requires
        db.wf(),
        disk_counters(disk) == db.counters.flushed,
    ensures
        counters_lead(scene(begin_step(db, kind, then_ttl), disk)),
{
}

/// Performing an action keeps to that, however it goes.
proof fn lemma_advance_counters_lead(s: Scene, outcome: Result<(), DbErrorView>)
    requires
        counters_lead(s),
    ensures
        counters_lead(advance(s, outcome)),
{
    if outcome is Ok {
        match s.action {
            StoreActionView::Counters { blob, rest } => {
                crate::counter::lemma_counters_survive(s.db.counters.values);
                let db = DbView { counters: synced(s.db.counters), ..s.db };
                let disk = perform(s.db, s.disk, s.action);
                let step = collect_step(db, rest.kind, rest.then_ttl);
                assert(counters_lead(scene(step, disk)));
                lemma_begin_counters_lead(step.0, disk, BufferKind::Ttl, false);
            },
            StoreActionView::Batch { slot, target, batch, .. } => {
                let kind = kind_of(target);
                crate::disk::lemma_store_pairs(
                    s.disk,
                    kind,
                    s.db.buffer(kind).targets[slot].name,
                    batch.pairs,
                    kind,
                    Seq::empty(),
                    Seq::empty(),
                );
                let disk = perform(s.db, s.disk, s.action);
                lemma_begin_counters_lead(s.db, disk, BufferKind::Ttl, false);
            },
            StoreActionView::Done(_) => {},
        }
    }
}

/// Performing actions keeps to that, however they go.
proof fn lemma_run_counters_lead(s: Scene, outcomes: Seq<Result<(), DbErrorView>>)
    requires
        counters_lead(s),
    ensures
        counters_lead(run(s, outcomes)),
    decreases outcomes.len(),
{
    if outcomes.len() > 0 {
        lemma_advance_counters_lead(s, outcomes[0]);
        lemma_run_counters_lead(advance(s, outcomes[0]), outcomes.drop_first());
    }
}

/// However the actions of a flush of both buffers go, no batch is asked to be
/// stored before the current counters are on disk; and a flush that ends without
/// error, even of empty buffers, has brought them there.
pub proof fn law_flush_stores_counters_first(
    db: DbView,
    disk: Disk,
    outcomes: Seq<Result<(), DbErrorView>>,
)
    requires
        db.wf(),
        disk_counters(disk) == db.counters.flushed,
    ensures
        ({
            let s = flush_run(db, disk, outcomes);
            &&& s.db.counters.values == db.counters.values
            &&& disk_counters(s.disk) == s.db.counters.flushed
            &&& s.action is Batch ==> disk_counters(s.disk) == s.db.counters.values
            &&& s.action == StoreActionView::Done(Ok(())) ==> disk_counters(s.disk)
                == s.db.counters.values
        }),
{
    let step = begin_step(db, BufferKind::Regular, true);
    lemma_begin_counters_lead(db, disk, BufferKind::Regular, true);
    lemma_begin_counters_lead(step.0, disk, BufferKind::Ttl, false);
    lemma_run_counters_lead(scene(flush_step(db), disk), outcomes);
    lemma_run_keeps_values(scene(flush_step(db), disk), outcomes);
}

/// Performing actions changes no counter.
proof fn lemma_run_keeps_values(s: Scene, outcomes: Seq<Result<(), DbErrorView>>)
    ensures
        run(s, outcomes).db.counters.values == s.db.counters.values,
    decreases outcomes.len(),
{
    if outcomes.len() > 0 {
        lemma_run_keeps_values(advance(s, outcomes[0]), outcomes.drop_first());
    }
}

/// However the actions of a write go, no batch is asked to be stored before the
/// current counters are on disk; and a write that flushes its buffer and ends
/// without error has brought them there.
pub proof fn law_write_stores_counters_first(
    db: DbView,
    disk: Disk,
    kind: BufferKind,
    e: EntryView,
    force: bool,
    outcomes: Seq<Result<(), DbErrorView>>,
)
    requires
        db.wf(),
        disk_counters(disk) == db.counters.flushed,
    ensures
        ({
            let s = write_run(db, disk, kind, e, force, outcomes);
            let p = pushed(db, kind, e.table, e.key, e.value);
            &&& s.db.counters.values == db.counters.values
            &&& disk_counters(s.disk) == s.db.counters.flushed
            &&& s.action is Batch ==> disk_counters(s.disk) == s.db.counters.values
            &&& (force || p.buffer(kind).full()) && s.action == StoreActionView::Done(Ok(()))
                ==> disk_counters(s.disk) == s.db.counters.values
        }),
{
    let start = scene(write_step(db, kind, e.table, e.key, e.value, force), disk);
    let p = pushed(db, kind, e.table, e.key, e.value);
    if force || p.buffer(kind).full() {
        lemma_begin_counters_lead(p, disk, kind, false);
        lemma_run_counters_lead(start, outcomes);
    } else {
        lemma_run_done(start, outcomes);
    }
    lemma_run_keeps_values(start, outcomes);
}

/// A flush of both buffers whose counters cannot be stored ends with that error,
/// and loses nothing: no batch is asked for, all entries stay pending, and the disk
/// is as it was.
pub proof fn law_failed_counters_stop_the_flush(
    db: DbView,
    disk: Disk,
    e: DbErrorView,
    outcomes: Seq<Result<(), DbErrorView>>,
)
    requires
        db.wf(),
        counters_fail(db.counters, outcomes),
        outcomes[0] == Err::<(), DbErrorView>(e),
    ensures
        flush_run(db, disk, outcomes).action == StoreActionView::Done(Err(e)),
        flush_run(db, disk, outcomes).disk == disk,
        flush_run(db, disk, outcomes).db == db,
{
    let start = scene(flush_step(db), disk);
    assert(db.with_buffer(BufferKind::Regular, db.regular.flush_begun()) =~= db);
    lemma_run_done(advance(start, outcomes[0]), outcomes.drop_first());
}

/// A counter flush that goes well puts a blob on disk from which a database opens
/// with the current counters, and leaves nothing for a second flush to write.
pub proof fn law_counters_survive_restart(counters: CounterView, disk: Disk)
    requires
        counters.wf(),
        disk_counters(disk) == counters.flushed,
    ensures
        match counters.flush_action() {
            CounterActionView::Store { blob, rest } => {
                let after = counters.settled(rest, Ok(()));
                &&& disk_counters(Disk { counters: Some(blob), ..disk }) == counters.values
                &&& after.values == counters.values
                &&& after.flush_action() == CounterActionView::Done(0)
            },
            CounterActionView::Done(_) => disk_counters(disk) == counters.values,
        },
{
    crate::counter::lemma_counters_survive(counters.values);
}

/// A counter flush that fails changes nothing, so that the next one writes again.
pub proof fn law_failed_counter_flush_is_repeated(
    counters: CounterView,
    rest: Seq<u64>,
    e: DbErrorView,
)
    ensures
        counters.settled(rest, Err(e)) == counters,
{
}

/// Incrementing a counter gives a greater value each time, and leaves the other
/// counters alone.
pub proof fn law_counters_are_independent(counters: CounterView, a: int, b: int)
    requires
        counters.wf(),
        0 <= a < COUNTER_SLOTS,
        0 <= b < COUNTER_SLOTS,
        counters.values[a] < u64::MAX,
    ensures
        counters.incremented(a).wf(),
        counters.incremented(a).values[a] == counters.values[a] + 1,
        b != a ==> counters.incremented(a).values[b] == counters.values[b],
{
}

/// After a flush of both buffers that ends without error, a handle that is opened
/// anew goes on with the same counters, and its reads give what the reads before
/// the flush gave. Left out are the keys that [`law_flush_keeps_reads`] leaves out.
pub proof fn law_flush_then_restart(
    db: DbView,
    disk: Disk,
    outcomes: Seq<Result<(), DbErrorView>>,
    fresh: DbView,
    table: Seq<char>,
    key: Seq<u8>,
)
    requires
        db.wf(),
        flush_run(db, disk, outcomes).action == StoreActionView::Done(Ok(())),
        disk_counters(disk) == db.counters.flushed,
        fresh.regular.entries.len() == 0,
        fresh.ttl.entries.len() == 0,
        fresh.counters.values == disk_counters(flush_run(db, disk, outcomes).disk),
        lookup(db.regular.entries, table, key) is None && lookup(db.ttl.entries, table, key) is Some
            ==> lookup(db.ttl.entries, table, key) == stored(
            disk,
            BufferKind::Regular,
            table,
            key,
        ),
    ensures
        fresh.counters.values == db.counters.values,
        read(fresh, flush_run(db, disk, outcomes).disk, table, key) == read(db, disk, table, key),
{
    law_flush_stores_everything(db, disk, outcomes);
    law_flush_keeps_reads(db, disk, outcomes, table, key);
    law_flush_stores_counters_first(db, disk, outcomes);
}

// ---------------------------------------------------------------------------
// Buffers
// ---------------------------------------------------------------------------

/// Removing the newest entry of a key uncovers the entry before it, and changes
/// the lookup of no other key.
pub proof fn law_remove_uncovers_older(
    entries: Seq<EntryView>,
    table: Seq<char>,
    key: Seq<u8>,
    table2: Seq<char>,
    key2: Seq<u8>,
)
    requires
        newest(entries, table, key) is Some,
    ensures
        ({
            let i = newest(entries, table, key)->0;
            lookup(entries.remove(i), table2, key2) == if table2 == table && key2 == key {
                lookup(entries.take(i), table, key)
            } else {
                lookup(entries, table2, key2)
            }
        }),
    decreases entries.len(),
{
    let i = newest(entries, table, key)->0;
    let front = entries.drop_last();
    let e = entries.last();
    crate::buffer::lemma_newest(entries, table, key);
    if e.table == table && e.key == key {
        assert(entries.remove(i) =~= front);
        assert(entries.take(i) =~= front);
        assert(front.push(e) =~= entries);
        law_push_then_lookup(front, e, table2, key2);
    } else {
        law_remove_uncovers_older(front, table, key, table2, key2);
        crate::buffer::lemma_newest(front, table, key);
        assert(entries.remove(i) =~= front.remove(i).push(e));
        assert(entries.take(i) =~= front.take(i));
        assert(front.push(e) =~= entries);
        law_push_then_lookup(front.remove(i), e, table2, key2);
        law_push_then_lookup(front, e, table2, key2);
    }
}

/// The number of pairs in a sequence of batches.
pub open spec fn pair_count(groups: Seq<BatchView>) -> nat
    decreases groups.len(),
{
    if groups.len() == 0 {
        0
    } else {
        pair_count(groups.drop_last()) + groups.last().pairs.len()
    }
}

/// Replacing a batch changes the count by the difference.
proof fn lemma_pair_count_update(groups: Seq<BatchView>, j: int, b: BatchView)
    requires
        0 <= j < groups.len(),
    ensures
        pair_count(groups.update(j, b)) == pair_count(groups) - groups[j].pairs.len()
            + b.pairs.len(),
    decreases groups.len(),
{
    let front = groups.drop_last();
    if j == groups.len() - 1 {
        assert(groups.update(j, b).drop_last() =~= front);
    } else {
        lemma_pair_count_update(front, j, b);
        assert(groups.update(j, b).drop_last() =~= front.update(j, b));
    }
}

/// The batches of a flush hold as many pairs as the buffer held entries: none is
/// lost and none is stored twice.
pub proof fn law_batches_hold_every_entry(entries: Seq<EntryView>)
    ensures
        pair_count(batches(entries)) == entries.len(),
    decreases entries.len(),
{
    if entries.len() > 0 {
        let front = entries.drop_last();
        let e = entries.last();
        law_batches_hold_every_entry(front);
        assert(front.push(e) =~= entries);
        crate::buffer::lemma_batches_push(front, e);
        let b = batches(front);
        if exists|j: int| 0 <= j < b.len() && (#[trigger] b[j]).table == e.table {
            let j = choose|j: int| 0 <= j < b.len() && (#[trigger] b[j]).table == e.table;
            lemma_pair_count_update(
                b,
                j,
                BatchView { table: e.table, pairs: b[j].pairs.push((e.key, e.value)) },
            );
        } else {
            let last = BatchView { table: e.table, pairs: seq![(e.key, e.value)] };
            assert(b.push(last).drop_last() =~= b);
        }
    }
}

/// Registering a table makes it known with its kind, keeps every table registered
/// once, and leaves the other tables where they were.
pub proof fn law_register_then_find(
    targets: Seq<TargetView>,
    name: Seq<char>,
    kind: TargetKind,
    other: Seq<char>,
)
    requires
        distinct_names(targets),
    ensures
        ({
            let after = registered(targets, name, kind);
            &&& distinct_names(after)
            &&& slot_of(after, name) is Some
            &&& after[slot_of(after, name)->0] == (TargetView { name, kind })
            &&& other != name ==> slot_of(after, other) == slot_of(targets, other)
            &&& other != name && slot_of(targets, other) is Some ==> after[slot_of(
                targets,
                other,
            )->0] == targets[slot_of(targets, other)->0]
        }),
{
    let after = registered(targets, name, kind);
    crate::buffer::lemma_slot_of(targets, name);
    crate::buffer::lemma_slot_of(targets, other);
    crate::buffer::lemma_slot_of(after, other);
    crate::buffer::lemma_slot_of(after, name);
    let i = match slot_of(targets, name) {
        Some(i) => i,
        None => targets.len() as int,
    };
    assert(after[i] == TargetView { name, kind });
    assert(distinct_names(after));
    crate::buffer::lemma_slot_unique(after, i);
    if other != name && slot_of(targets, other) is Some {
        let j = slot_of(targets, other)->0;
        assert(after[j] == targets[j]);
        crate::buffer::lemma_slot_unique(after, j);
    }
}

} // verus!
