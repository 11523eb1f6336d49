//! What holds of single steps: what a write adds, what a read finds, which table a
//! batch is handed out for, when a flush begins and how it goes on.

use crate::buffer::{
    batches, lookup, newest, outcome_view, pairs_of, registered, resume_action, slot_of, tables,
    BatchView, BufferFlushView, BufferView, EntryView, FlushAction, FlushActionView, FlushStart,
    FlushStartView, TableBatch, TargetKind, TargetView,
};
use crate::counter::{
    encode_counters, stored_counters, CounterAction, CounterActionView, CounterView,
};
use crate::disk::{advance, disk_counters, flush_step, read, run, scene, stored, Disk, Scene};
use crate::error::{DbError, DbErrorView};
use crate::laws::{flush_run, write_run};
use crate::wrapper::{
    begin_step, expires_soon, resume_step, write_step, BufferKind, DbFlushView, DbView,
    FlushStageView, StoreAction, StoreActionView,
};
use vstd::prelude::*;

verus! {

// ---------------------------------------------------------------------------
// Reading the buffers
// ---------------------------------------------------------------------------

/// No entry is a write of `key` in `table`.
pub open spec fn unwritten(entries: Seq<EntryView>, table: Seq<char>, key: Seq<u8>) -> bool {
    forall|j: int|
        0 <= j < entries.len() ==> !((#[trigger] entries[j]).table == table && entries[j].key
            == key)
}

/// The entry at `i` is a write of `key` in `table`, and no later one is.
pub open spec fn last_write(
    entries: Seq<EntryView>,
    table: Seq<char>,
    key: Seq<u8>,
    i: int,
) -> bool {
    &&& 0 <= i < entries.len()
    &&& entries[i].table == table
    &&& entries[i].key == key
    &&& forall|j: int|
        i < j < entries.len() ==> !((#[trigger] entries[j]).table == table && entries[j].key == key)
}

/// A lookup gives the value of the last write of the key, whatever that value is,
/// and nothing where no entry writes the key.
pub proof fn law_lookup_gives_last_write(
    entries: Seq<EntryView>,
    table: Seq<char>,
    key: Seq<u8>,
    i: int,
)
    ensures
        last_write(entries, table, key, i) ==> newest(entries, table, key) == Some(i),
        last_write(entries, table, key, i) ==> lookup(entries, table, key) == Some(
            entries[i].value,
        ),
        unwritten(entries, table, key) ==> newest(entries, table, key) is None,
        unwritten(entries, table, key) ==> lookup(entries, table, key) is None,
{
    crate::buffer::lemma_newest(entries, table, key);
    if let Some(n) = newest(entries, table, key) {
        assert(entries[n].table == table && entries[n].key == key);
    }
    if last_write(entries, table, key, i) {
        assert(crate::buffer::concerns(entries[i], table, key));
    }
}

/// A buffer-first read gives the last write in the regular buffer; where that buffer
/// holds no write of the key, the last one in the TTL buffer; where neither does,
/// nothing.
pub proof fn law_buffered_read(db: DbView, table: Seq<char>, key: Seq<u8>, i: int)
    ensures
        last_write(db.regular.entries, table, key, i) ==> db.buffered(table, key) == Some(
            db.regular.entries[i].value,
        ),
        unwritten(db.regular.entries, table, key) && last_write(db.ttl.entries, table, key, i)
            ==> db.buffered(table, key) == Some(db.ttl.entries[i].value),
        unwritten(db.regular.entries, table, key) && unwritten(db.ttl.entries, table, key)
            ==> db.buffered(table, key) is None,
{
    law_lookup_gives_last_write(db.regular.entries, table, key, i);
    law_lookup_gives_last_write(db.ttl.entries, table, key, i);
}

// ---------------------------------------------------------------------------
// Writes
// ---------------------------------------------------------------------------

/// The entries of one of the two buffers.
pub open spec fn entries_of(db: DbView, kind: BufferKind) -> Seq<EntryView> {
    match kind {
        BufferKind::Regular => db.regular.entries,
        BufferKind::Ttl => db.ttl.entries,
    }
}

/// The registered tables of one of the two buffers.
pub open spec fn targets_of(db: DbView, kind: BufferKind) -> Seq<TargetView> {
    match kind {
        BufferKind::Regular => db.regular.targets,
        BufferKind::Ttl => db.ttl.targets,
    }
}

/// The handle after one more entry was pushed into one of the two buffers.
pub open spec fn with_entry(db: DbView, kind: BufferKind, e: EntryView) -> DbView {
    match kind {
        BufferKind::Regular => DbView {
            regular: BufferView { entries: db.regular.entries.push(e), ..db.regular },
            ..db
        },
        BufferKind::Ttl => DbView {
            ttl: BufferView { entries: db.ttl.entries.push(e), ..db.ttl },
            ..db
        },
    }
}

/// A write that forces no flush and does not bring its buffer to 10000 entries is
/// over at once: the entry is pending, and nothing else changed. A buffer-first read
/// of its key gives the written value, a TTL write only where no regular write of
/// the key is pending; of any other key it gives what it gave before.
pub proof fn law_buffered_write(
    db: DbView,
    disk: Disk,
    kind: BufferKind,
    e: EntryView,
    outcomes: Seq<Result<(), DbErrorView>>,
    table: Seq<char>,
    key: Seq<u8>,
)
    requires
        db.wf(),
        entries_of(db, kind).len() + 1 < 10_000,
    ensures
        ({
            let s = write_run(db, disk, kind, e, false, outcomes);
            &&& s.action == StoreActionView::Done(Ok(()))
            &&& s.disk == disk
            &&& s.db == with_entry(db, kind, e)
            &&& kind == BufferKind::Regular || unwritten(db.regular.entries, e.table, e.key)
                ==> s.db.buffered(e.table, e.key) == Some(e.value)
            &&& !(e.table == table && e.key == key) ==> s.db.buffered(table, key) == db.buffered(
                table,
                key,
            )
        }),
{
    let start = scene(write_step(db, kind, e.table, e.key, e.value, false), disk);
    crate::laws::lemma_run_done(start, outcomes);
    let s = write_run(db, disk, kind, e, false, outcomes);
    assert(s.db == with_entry(db, kind, e));
    law_buffered_read(s.db, e.table, e.key, entries_of(db, kind).len() as int);
    assert(entries_of(s.db, kind).last() == e);
    crate::laws::law_push_then_lookup(entries_of(db, kind), e, table, key);
}

/// A write that forces a flush, or that brings its buffer to 10000 entries, flushes
/// the buffer: once it is over the buffer is empty, unless the counters could not be
/// stored; and where it ended without error the written value is on disk.
pub proof fn law_flushing_write(
    db: DbView,
    disk: Disk,
    kind: BufferKind,
    e: EntryView,
    force: bool,
    outcomes: Seq<Result<(), DbErrorView>>,
)
    requires
        db.wf(),
        force || entries_of(db, kind).len() + 1 >= 10_000,
    ensures
        ({
            let s = write_run(db, disk, kind, e, force, outcomes);
            let failed = db.counters.values != db.counters.flushed && outcomes.len() > 0
                && outcomes[0] is Err;
            &&& s.action is Done && !failed ==> entries_of(s.db, kind).len() == 0
            &&& s.action == StoreActionView::Done(Ok(())) ==> stored(
                s.disk,
                kind,
                e.table,
                e.key,
            ) == Some(e.value)
        }),
{
    let s = write_run(db, disk, kind, e, force, outcomes);
    if s.action is Done && !crate::laws::counters_fail(db.counters, outcomes) {
        let p = crate::laws::pushed(db, kind, e.table, e.key, e.value);
        crate::laws::lemma_flush_empties_buffer(p, disk, kind, outcomes);
    }
    if s.action == StoreActionView::Done(Ok(())) {
        crate::laws::law_flushing_write_stores_everything(
            db,
            disk,
            kind,
            e,
            force,
            outcomes,
            e.table,
            e.key,
        );
        crate::laws::law_push_then_lookup(entries_of(db, kind), e, e.table, e.key);
    }
}

/// A TTL write flushes the TTL buffer if its entry lives shorter than ten seconds.
/// One whose entry lives longer leaves it pending, unless the buffer is full.
pub proof fn law_ttl_write_flushes_below_ten_seconds(
    db: DbView,
    disk: Disk,
    e: EntryView,
    ttl_nanos: u128,
    outcomes: Seq<Result<(), DbErrorView>>,
)
    requires
        db.wf(),
    ensures
        ({
            let s = write_run(db, disk, BufferKind::Ttl, e, expires_soon(ttl_nanos), outcomes);
            let failed = db.counters.values != db.counters.flushed && outcomes.len() > 0
                && outcomes[0] is Err;
            &&& ttl_nanos < 10_000_000_000 && s.action is Done && !failed
                ==> s.db.ttl.entries.len() == 0
            &&& ttl_nanos < 10_000_000_000 && s.action == StoreActionView::Done(Ok(())) ==> stored(
                s.disk,
                BufferKind::Ttl,
                e.table,
                e.key,
            ) == Some(e.value)
            &&& ttl_nanos >= 10_000_000_000 && db.ttl.entries.len() + 1 < 10_000 ==> s.action
                == StoreActionView::Done(Ok(())) && s.disk == disk && s.db == with_entry(
                db,
                BufferKind::Ttl,
                e,
            )
        }),
{
    let kind = BufferKind::Ttl;
    if ttl_nanos < 10_000_000_000 {
        assert(expires_soon(ttl_nanos));
        law_flushing_write(db, disk, kind, e, true, outcomes);
    } else {
        assert(!expires_soon(ttl_nanos));
        if db.ttl.entries.len() + 1 < 10_000 {
            law_buffered_write(db, disk, kind, e, outcomes, e.table, e.key);
        }
    }
}

// ---------------------------------------------------------------------------
// Batches and their tables
// ---------------------------------------------------------------------------

/// Where `action` hands out a batch, its slot is that of the batch's table, and its
/// target is how that table was registered.
pub open spec fn addressed(db: DbView, action: StoreActionView) -> bool {
    action matches StoreActionView::Batch { kind, slot, target, batch, .. } ==> {
        &&& 0 <= slot < targets_of(db, kind).len()
        &&& targets_of(db, kind)[slot].name == batch.table
        &&& targets_of(db, kind)[slot].kind == target
        &&& slot_of(targets_of(db, kind), batch.table) == Some(slot)
    }
}

/// Both handles have the same registered tables.
spec fn same_targets(a: DbView, b: DbView) -> bool {
    a.regular.targets == b.regular.targets && a.ttl.targets == b.ttl.targets
}

/// Every batch that a resumed flush hands out is addressed to its own table; and
/// resuming registers no table.
pub proof fn law_resume_addresses_batch(
    db: DbView,
    rest: DbFlushView,
    outcome: Result<(), DbErrorView>,
)
    ensures
        addressed(db, resume_step(db, rest, outcome).1),
        targets_of(resume_step(db, rest, outcome).0, BufferKind::Regular) == db.regular.targets,
        targets_of(resume_step(db, rest, outcome).0, BufferKind::Ttl) == db.ttl.targets,
{
    crate::buffer::lemma_slots(db.regular.targets);
    crate::buffer::lemma_slots(db.ttl.targets);
}

/// However the actions go, what the rest of an operation hands out is addressed.
proof fn lemma_run_addressed(s: Scene, outcomes: Seq<Result<(), DbErrorView>>)
    requires
        addressed(s.db, s.action),
    ensures
        addressed(s.db, run(s, outcomes).action),
        same_targets(s.db, run(s, outcomes).db),
    decreases outcomes.len(),
{
    if outcomes.len() > 0 {
        if let Some(rest) = crate::disk::rest_of(s.action) {
            law_resume_addresses_batch(s.db, rest, outcomes[0]);
        }
        let next = advance(s, outcomes[0]);
        assert(same_targets(s.db, next.db));
        lemma_run_addressed(next, outcomes.drop_first());
    }
}

/// However the actions of a flush of both buffers go, and at any time during it,
/// every batch that it hands out is addressed to its own table.
pub proof fn law_flush_addresses_batches(
    db: DbView,
    disk: Disk,
    outcomes: Seq<Result<(), DbErrorView>>,
)
    ensures
        addressed(db, flush_run(db, disk, outcomes).action),
{
    crate::buffer::lemma_slots(db.regular.targets);
    crate::buffer::lemma_slots(db.ttl.targets);
    let start = scene(flush_step(db), disk);
    assert(same_targets(db, start.db));
    assert(addressed(start.db, start.action));
    lemma_run_addressed(start, outcomes);
}

/// What is asked for belongs to a flush of the buffer `kind` alone.
spec fn of_kind(action: StoreActionView, kind: BufferKind) -> bool {
    match action {
        StoreActionView::Counters { rest, .. } => rest.kind == kind && !rest.then_ttl,
        StoreActionView::Batch { kind: k, rest, .. } => k == kind && rest.kind == kind
            && !rest.then_ttl,
        StoreActionView::Done(_) => true,
    }
}

/// However the actions go, the rest of such a flush keeps to that.
proof fn lemma_run_of_kind(s: Scene, kind: BufferKind, outcomes: Seq<Result<(), DbErrorView>>)
    requires
        of_kind(s.action, kind),
    ensures
        of_kind(run(s, outcomes).action, kind),
    decreases outcomes.len(),
{
    if outcomes.len() > 0 {
        lemma_run_of_kind(advance(s, outcomes[0]), kind, outcomes.drop_first());
    }
}

/// However the actions of a write go, and at any time during it, every batch that it
/// hands out is addressed to its own table, and is one of the written buffer.
pub proof fn law_write_addresses_batches(
    db: DbView,
    disk: Disk,
    kind: BufferKind,
    e: EntryView,
    force: bool,
    outcomes: Seq<Result<(), DbErrorView>>,
)
    ensures
        addressed(db, write_run(db, disk, kind, e, force, outcomes).action),
        write_run(db, disk, kind, e, force, outcomes).action matches StoreActionView::Batch {
            kind: k,
            ..
        } ==> k == kind,
{
    crate::buffer::lemma_slots(db.regular.targets);
    crate::buffer::lemma_slots(db.ttl.targets);
    let start = scene(write_step(db, kind, e.table, e.key, e.value, force), disk);
    assert(same_targets(db, start.db));
    assert(addressed(start.db, start.action));
    lemma_run_addressed(start, outcomes);
    lemma_run_of_kind(start, kind, outcomes);
}

/// Registering a table keeps the slots of all others. A table that was registered
/// before keeps its slot and is stored in the new way from then on; any other gets
/// the next slot.
pub proof fn law_register_keeps_slots(
    targets: Seq<TargetView>,
    name: Seq<char>,
    kind: TargetKind,
    i: int,
)
    requires
        crate::buffer::distinct_names(targets),
    ensures
        ({
            let after = registered(targets, name, kind);
            &&& 0 <= i < targets.len() ==> after[i].name == targets[i].name
            &&& 0 <= i < targets.len() && targets[i].name == name ==> after.len() == targets.len()
                && after[i].kind == kind
            &&& 0 <= i < targets.len() && targets[i].name != name ==> after[i] == targets[i]
            &&& (forall|j: int| 0 <= j < targets.len() ==> (#[trigger] targets[j]).name != name)
                ==> after.len() == targets.len() + 1 && after.last().name == name
                && after.last().kind == kind
        }),
{
    crate::buffer::lemma_slot_of(targets, name);
    if 0 <= i < targets.len() {
        crate::buffer::lemma_slot_unique(targets, i);
    }
}

/// Where `action` hands out a batch of the TTL table `name`, the batch carries that
/// lifetime.
pub open spec fn carries_lifetime(
    action: StoreActionView,
    name: Seq<char>,
    default_ttl_nanos: u128,
) -> bool {
    action matches StoreActionView::Batch { kind, target, batch, .. } ==> (kind == BufferKind::Ttl
        && batch.table == name ==> target == TargetKind::Ttl { default_ttl_nanos })
}

/// After a TTL table was registered, every batch of it that a flush or a write hands
/// out carries the lifetime with which it was registered.
pub proof fn law_batch_carries_registered_lifetime(
    db: DbView,
    disk: Disk,
    targets: Seq<TargetView>,
    name: Seq<char>,
    default_ttl_nanos: u128,
    e: EntryView,
    force: bool,
    outcomes: Seq<Result<(), DbErrorView>>,
)
    requires
        crate::buffer::distinct_names(targets),
        db.ttl.targets == registered(targets, name, TargetKind::Ttl { default_ttl_nanos }),
    ensures
        carries_lifetime(flush_run(db, disk, outcomes).action, name, default_ttl_nanos),
        carries_lifetime(
            write_run(db, disk, BufferKind::Ttl, e, force, outcomes).action,
            name,
            default_ttl_nanos,
        ),
{
    let kind = TargetKind::Ttl { default_ttl_nanos };
    crate::laws::law_register_then_find(targets, name, kind, name);
    law_flush_addresses_batches(db, disk, outcomes);
    law_write_addresses_batches(db, disk, BufferKind::Ttl, e, force, outcomes);
}

// ---------------------------------------------------------------------------
// How a flush begins and goes on
// ---------------------------------------------------------------------------

/// The handle after a flush took the entries of one of the two buffers.
pub open spec fn without_entries(db: DbView, kind: BufferKind) -> DbView {
    match kind {
        BufferKind::Regular => DbView {
            regular: BufferView { entries: Seq::empty(), ..db.regular },
            ..db
        },
        BufferKind::Ttl => DbView { ttl: BufferView { entries: Seq::empty(), ..db.ttl }, ..db },
    }
}

/// What a flush of `kind` asks for where the batches in `left` are still to be
/// stored: the first of them, keeping the others for later; or nothing, with an
/// error, where the table of the first is not registered.
pub open spec fn asks_for_first(
    db: DbView,
    kind: BufferKind,
    then_ttl: bool,
    left: Seq<BatchView>,
    action: StoreActionView,
) -> bool {
    match action {
        StoreActionView::Counters { .. } => false,
        StoreActionView::Batch { kind: k, batch, rest, .. } => {
            &&& k == kind
            &&& rest.kind == kind
            &&& rest.then_ttl == then_ttl
            &&& rest.stage matches FlushStageView::Tables(run) && left == seq![batch] + run.batches
        },
        StoreActionView::Done(Ok(_)) => false,
        StoreActionView::Done(Err(e)) => {
            &&& e == DbErrorView::TableNotFound(left[0].table)
            &&& forall|i: int|
                0 <= i < targets_of(db, kind).len() ==> (#[trigger] targets_of(db, kind)[i]).name
                    != left[0].table
        },
    }
}

/// A flush of one buffer begins with the current counters, if they changed since
/// they were last stored, and takes no entries yet; else it takes all entries and
/// asks for the first of their batches. Without entries it is over.
pub proof fn law_flush_begins(db: DbView, kind: BufferKind, then_ttl: bool)
    requires
        db.wf(),
    ensures
        ({
            let (after, action) = begin_step(db, kind, then_ttl);
            if db.counters.values != db.counters.flushed {
                &&& after == db
                &&& action matches StoreActionView::Counters { blob, rest } && blob
                    == encode_counters(db.counters.values) && rest.kind == kind && rest.then_ttl
                    == then_ttl && rest.stage == FlushStageView::Counters(db.counters.values)
            } else if entries_of(db, kind).len() == 0 {
                after == db && action == StoreActionView::Done(Ok(()))
            } else {
                &&& after == without_entries(db, kind)
                &&& asks_for_first(db, kind, then_ttl, batches(entries_of(db, kind)), action)
            }
        }),
{
    lemma_has_batch(entries_of(db, kind));
    crate::buffer::lemma_slot_of(targets_of(db, kind), batches(entries_of(db, kind))[0].table);
    if entries_of(db, kind).len() > 0 {
        let all = batches(entries_of(db, kind));
        assert(all =~= seq![all[0]] + all.drop_first());
    } else {
        assert(entries_of(db, kind) =~= Seq::empty());
    }
    let (after, action) = begin_step(db, kind, then_ttl);
    if db.counters.values != db.counters.flushed || entries_of(db, kind).len() == 0 {
        assert(after =~= db);
    }
}

/// A flush of both buffers begins as one of the regular buffer that is to go on with
/// the TTL buffer; where neither the counters nor the regular buffer has anything to
/// store, it begins with the TTL buffer.
pub proof fn law_flush_of_both_begins(db: DbView)
    requires
        db.wf(),
    ensures
        db.counters.values != db.counters.flushed || db.regular.entries.len() > 0 ==> flush_step(db)
            == begin_step(db, BufferKind::Regular, true),
        db.counters.values == db.counters.flushed && db.regular.entries.len() == 0 ==> flush_step(
            db,
        ) == begin_step(db, BufferKind::Ttl, false),
{
    law_flush_begins(db, BufferKind::Regular, true);
}

/// Where there are entries there is a batch.
proof fn lemma_has_batch(entries: Seq<EntryView>)
    ensures
        entries.len() > 0 ==> batches(entries).len() > 0,
{
    if entries.len() > 0 {
        crate::buffer::lemma_tables(entries);
        assert(tables(entries).contains(entries[0].table));
    }
}

/// An outcome that is an error ends a flush with that error, whatever the flush
/// asked for, and changes nothing in the handle.
pub proof fn law_error_ends_flush(db: DbView, rest: DbFlushView, e: DbErrorView)
    ensures
        resume_step(db, rest, Err(e)) == (db, StoreActionView::Done(Err(e))),
{
}

/// Once the counters are stored, a flush takes all entries that its buffer holds
/// then, later ones included, and asks for the first of their batches; what was
/// stored of the counters counts as stored, also if they changed meanwhile. Without
/// entries it is over, or goes on with the TTL buffer.
pub proof fn law_flush_goes_on_after_counters(
    db: DbView,
    kind: BufferKind,
    then_ttl: bool,
    snapshot: Seq<u64>,
)
    ensures
        ({
            let rest = DbFlushView { kind, then_ttl, stage: FlushStageView::Counters(snapshot) };
            let (after, action) = resume_step(db, rest, Ok(()));
            let settled = DbView {
                counters: CounterView { values: db.counters.values, flushed: snapshot },
                ..db
            };
            if entries_of(db, kind).len() > 0 {
                &&& after == without_entries(settled, kind)
                &&& asks_for_first(db, kind, then_ttl, batches(entries_of(db, kind)), action)
            } else if then_ttl {
                (after, action) == begin_step(settled, BufferKind::Ttl, false)
            } else {
                (after, action) == (settled, StoreActionView::Done(Ok(())))
            }
        }),
{
    let all = batches(entries_of(db, kind));
    if entries_of(db, kind).len() > 0 {
        lemma_has_batch(entries_of(db, kind));
        crate::buffer::lemma_slot_of(targets_of(db, kind), all[0].table);
        assert(all =~= seq![all[0]] + all.drop_first());
    } else {
        let settled = DbView {
            counters: CounterView { values: db.counters.values, flushed: snapshot },
            ..db
        };
        assert(without_entries(settled, kind) =~= settled);
    }
}

/// After a batch was stored, a flush asks for the next one. It changes nothing in
/// the handle: entries that were written meanwhile stay pending. After the last
/// batch it is over, or goes on with the TTL buffer.
pub proof fn law_flush_goes_on_after_batch(
    db: DbView,
    kind: BufferKind,
    then_ttl: bool,
    left: BufferFlushView,
)
    ensures
        ({
            let rest = DbFlushView { kind, then_ttl, stage: FlushStageView::Tables(left) };
            let (after, action) = resume_step(db, rest, Ok(()));
            if left.batches.len() > 0 {
                &&& after == db
                &&& asks_for_first(db, kind, then_ttl, left.batches, action)
            } else if then_ttl {
                (after, action) == begin_step(db, BufferKind::Ttl, false)
            } else {
                (after, action) == (db, StoreActionView::Done(Ok(())))
            }
        }),
{
    if left.batches.len() > 0 {
        crate::buffer::lemma_slot_of(targets_of(db, kind), left.batches[0].table);
        assert(left.batches =~= seq![left.batches[0]] + left.batches.drop_first());
    }
}

// ---------------------------------------------------------------------------
// One buffer by itself
// ---------------------------------------------------------------------------

/// A push adds one entry behind the others and changes nothing else; the buffer is
/// then full if it has a limit and holds as many entries.
pub proof fn law_push_adds_entry(
    buffer: BufferView,
    table: Seq<char>,
    key: Seq<u8>,
    value: Seq<u8>,
)
    ensures
        ({
            let after = buffer.pushed(table, key, value);
            &&& after.entries.len() == buffer.entries.len() + 1
            &&& after.entries.drop_last() == buffer.entries
            &&& after.entries.last().table == table
            &&& after.entries.last().key == key
            &&& after.entries.last().value == value
            &&& after.targets == buffer.targets
            &&& after.max_size == buffer.max_size
            &&& after.on_flush == buffer.on_flush
            &&& after.full() <==> buffer.max_size > 0 && buffer.entries.len() + 1
                >= buffer.max_size
        }),
{
    assert(buffer.pushed(table, key, value).entries.drop_last() =~= buffer.entries);
}

/// A flush of a buffer with related state asks for that first and takes nothing yet.
/// Without, it takes all entries at once; it never changes the registered tables.
pub proof fn law_buffer_flush_begins(buffer: BufferView)
    ensures
        buffer.on_flush ==> buffer.flush_begun() == buffer && buffer.flush_start()
            == FlushStartView::Sync,
        !buffer.on_flush ==> buffer.flush_begun() == buffer.collected() && buffer.flush_start()
            == FlushStartView::Begun(buffer.collect_action()),
        buffer.collected().entries.len() == 0,
        buffer.collected().targets == buffer.targets,
        buffer.collected().max_size == buffer.max_size,
        buffer.collected().on_flush == buffer.on_flush,
{
}

/// The flush of a buffer after `n` more batches were stored.
pub open spec fn after_batches(
    targets: Seq<TargetView>,
    action: FlushActionView,
    n: nat,
) -> FlushActionView
    decreases n,
{
    match action {
        FlushActionView::Write { rest, .. } if n > 0 => after_batches(
            targets,
            resume_action(targets, rest, Ok(())),
            (n - 1) as nat,
        ),
        _ => action,
    }
}

/// What the flush of a buffer asks for after the first `i` batches of `entries` were
/// stored.
spec fn at_batch(
    targets: Seq<TargetView>,
    entries: Seq<EntryView>,
    i: int,
    action: FlushActionView,
) -> bool {
    &&& 0 <= i <= tables(entries).len()
    &&& action == crate::buffer::next_action(
        targets,
        BufferFlushView { batches: batches(entries).skip(i), count: entries.len() },
    )
}

/// Storing `n` more batches of registered tables comes to the batch after them.
proof fn lemma_after_batches(
    targets: Seq<TargetView>,
    entries: Seq<EntryView>,
    i: int,
    action: FlushActionView,
    n: nat,
)
    requires
        at_batch(targets, entries, i, action),
        i + n <= tables(entries).len(),
        forall|j: int|
            i <= j < i + n ==> slot_of(targets, #[trigger] tables(entries)[j]) is Some,
    ensures
        at_batch(targets, entries, i + n, after_batches(targets, action, n)),
    decreases n,
{
    if n > 0 {
        let all = batches(entries);
        assert(all.skip(i)[0].table == tables(entries)[i]);
        assert(all.skip(i).drop_first() =~= all.skip(i + 1));
        let next = resume_action(
            targets,
            BufferFlushView { batches: all.skip(i + 1), count: entries.len() },
            Ok(()),
        );
        lemma_after_batches(targets, entries, i + 1, next, (n - 1) as nat);
    }
}

/// The flush of a buffer whose first `n` tables are registered stores their batches,
/// one table after the other in the order of their first entries, each with all
/// pairs of its table. After the last it is over, with the number of entries that it
/// took; before a table that is not registered it is over with that error.
pub proof fn law_buffer_flush_stores_tables_in_turn(buffer: BufferView, n: nat)
    requires
        n <= tables(buffer.entries).len(),
        forall|j: int|
            0 <= j < n ==> exists|k: int|
                0 <= k < buffer.targets.len() && (#[trigger] buffer.targets[k]).name == (
                #[trigger] tables(buffer.entries)[j]),
    ensures
        match after_batches(buffer.targets, buffer.collect_action(), n) {
            FlushActionView::Write { slot, kind, batch, .. } => {
                &&& n < tables(buffer.entries).len()
                &&& batch.table == tables(buffer.entries)[n as int]
                &&& batch.pairs == pairs_of(buffer.entries, batch.table)
                &&& 0 <= slot < buffer.targets.len()
                &&& buffer.targets[slot].name == batch.table
                &&& buffer.targets[slot].kind == kind
            },
            FlushActionView::Done(Ok(count)) => n == tables(buffer.entries).len() && count
                == buffer.entries.len(),
            FlushActionView::Done(Err(e)) => {
                &&& n < tables(buffer.entries).len()
                &&& e == DbErrorView::TableNotFound(tables(buffer.entries)[n as int])
                &&& forall|k: int|
                    0 <= k < buffer.targets.len() ==> (#[trigger] buffer.targets[k]).name
                        != tables(buffer.entries)[n as int]
            },
        },
{
    let all = batches(buffer.entries);
    assert(all.skip(0) =~= all);
    lemma_has_batch(buffer.entries);
    assert forall|j: int| 0 <= j < n implies slot_of(
        buffer.targets,
        #[trigger] tables(buffer.entries)[j],
    ) is Some by {
        crate::buffer::lemma_slot_of(buffer.targets, tables(buffer.entries)[j]);
    }
    lemma_after_batches(buffer.targets, buffer.entries, 0, buffer.collect_action(), n);
    if n < tables(buffer.entries).len() {
        assert(all.skip(n as int)[0] == all[n as int]);
        crate::buffer::lemma_slot_of(buffer.targets, tables(buffer.entries)[n as int]);
    }
}

/// A batch that cannot be stored ends the flush of a buffer with that error.
pub proof fn law_error_ends_buffer_flush(
    targets: Seq<TargetView>,
    left: BufferFlushView,
    e: DbErrorView,
)
    ensures
        resume_action(targets, left, Err(e)) == FlushActionView::Done(Err(e)),
{
}

/// The pairs of a table are those of its entries, in the order of the writes: one
/// more entry adds its pair behind the others of its table, and leaves those of all
/// other tables.
pub proof fn law_pairs_keep_order(entries: Seq<EntryView>, e: EntryView, table: Seq<char>)
    ensures
        pairs_of(Seq::empty(), table).len() == 0,
        e.table == table ==> pairs_of(entries.push(e), table) == pairs_of(entries, table).push(
            (e.key, e.value),
        ),
        e.table != table ==> pairs_of(entries.push(e), table) == pairs_of(entries, table),
{
    assert(entries.push(e).drop_last() =~= entries);
}

/// The batches are those of the tables in the order of their first entries: one more
/// entry adds a batch behind the others exactly if it is the first of its table.
pub proof fn law_tables_keep_order(entries: Seq<EntryView>, e: EntryView)
    ensures
        tables(Seq::empty()).len() == 0,
        (exists|i: int| 0 <= i < entries.len() && (#[trigger] entries[i]).table == e.table)
            ==> tables(entries.push(e)) == tables(entries),
        (forall|i: int| 0 <= i < entries.len() ==> (#[trigger] entries[i]).table != e.table)
            ==> tables(entries.push(e)) == tables(entries).push(e.table),
        batches(entries).len() == tables(entries).len(),
        forall|i: int|
            0 <= i < batches(entries).len() ==> (#[trigger] batches(entries)[i]).table == tables(
                entries,
            )[i] && batches(entries)[i].pairs == pairs_of(entries, tables(entries)[i]),
{
    assert(entries.push(e).drop_last() =~= entries);
    crate::buffer::lemma_tables(entries);
}

// ---------------------------------------------------------------------------
// Opening
// ---------------------------------------------------------------------------

/// The disk holds the counter blob `blob`, or none.
pub open spec fn holds_blob(disk: Disk, blob: Option<Vec<u8>>) -> bool {
    match blob {
        Some(bytes) => disk.counters == Some(bytes@),
        None => disk.counters is None,
    }
}

/// A handle that is opened on the counter blob of a disk starts with the counters
/// that the disk holds.
pub proof fn law_open_reads_disk(disk: Disk, blob: Option<Vec<u8>>)
    requires
        holds_blob(disk, blob),
    ensures
        stored_counters(blob) == disk_counters(disk),
{
    assert(stored_counters(blob) =~= disk_counters(disk));
}

/// A handle was opened on the counter blob `blob`. After a flush of both buffers that
/// ends without error, a handle that is opened on the counter blob that is on disk
/// then goes on with the same counters, and its reads give what the reads before the
/// flush gave. Left out are the keys that
/// [`law_flush_keeps_reads`](crate::laws::law_flush_keeps_reads) leaves out.
pub proof fn law_flush_then_open(
    db: DbView,
    disk: Disk,
    blob: Option<Vec<u8>>,
    outcomes: Seq<Result<(), DbErrorView>>,
    blob_after: Option<Vec<u8>>,
    fresh: DbView,
    table: Seq<char>,
    key: Seq<u8>,
)
    requires
        db.wf(),
        holds_blob(disk, blob),
        db.counters.flushed == stored_counters(blob),
        flush_run(db, disk, outcomes).action == StoreActionView::Done(Ok(())),
        holds_blob(flush_run(db, disk, outcomes).disk, blob_after),
        fresh.regular.entries.len() == 0,
        fresh.ttl.entries.len() == 0,
        fresh.counters.values == stored_counters(blob_after),
        unwritten(db.regular.entries, table, key) && !unwritten(db.ttl.entries, table, key)
            ==> lookup(db.ttl.entries, table, key) == stored(
            disk,
            BufferKind::Regular,
            table,
            key,
        ),
    ensures
        fresh.counters.values == db.counters.values,
        read(fresh, flush_run(db, disk, outcomes).disk, table, key) == read(db, disk, table, key),
{
    law_open_reads_disk(disk, blob);
    law_open_reads_disk(flush_run(db, disk, outcomes).disk, blob_after);
    law_lookup_gives_last_write(db.regular.entries, table, key, 0);
    law_lookup_gives_last_write(db.ttl.entries, table, key, 0);
    crate::buffer::lemma_newest(db.regular.entries, table, key);
    crate::laws::law_flush_then_restart(db, disk, outcomes, fresh, table, key);
}

// ---------------------------------------------------------------------------
// What the host application is handed, and hands back
// ---------------------------------------------------------------------------

/// An outcome counts as what it is: as success or as the very error.
pub proof fn law_outcome_is_kept(outcome: Result<(), DbError>)
    ensures
        outcome is Ok <==> outcome_view(outcome) is Ok,
        outcome matches Err(DbError::Redb(e)) ==> outcome_view(outcome) == Err::<(), DbErrorView>(
            DbErrorView::Redb(e),
        ),
        outcome matches Err(DbError::Io(e)) ==> outcome_view(outcome) == Err::<(), DbErrorView>(
            DbErrorView::Io(e),
        ),
        outcome matches Err(DbError::TableNotFound(name)) ==> outcome_view(outcome) == Err::<
            (),
            DbErrorView,
        >(DbErrorView::TableNotFound(name@)),
{
}

/// What a handle asks for, as the laws speak of it, is what the host is handed.
pub proof fn law_action_is_what_is_handed_out(action: StoreAction)
    ensures
        match action {
            StoreAction::Counters { blob, rest } => action@ == (StoreActionView::Counters {
                blob: blob@,
                rest: rest@,
            }),
            StoreAction::Batch { kind, slot, target, batch, rest } => {
                &&& action@ matches StoreActionView::Batch {
                    kind: k,
                    slot: s,
                    target: t,
                    batch: b,
                    rest: r,
                }
                &&& k == kind
                &&& s == slot
                &&& t == target
                &&& b == batch@
                &&& r == rest@
            },
            StoreAction::Done(Ok(_)) => action@ == StoreActionView::Done(Ok(())),
            StoreAction::Done(Err(e)) => action@ == StoreActionView::Done(Err(e@)),
        },
{
}

/// The same of what a buffer or the counters ask for.
pub proof fn law_inner_actions_are_what_is_handed_out(
    action: FlushAction,
    start: FlushStart,
    counters: CounterAction,
)
    ensures
        match action {
            FlushAction::Write { slot, kind, batch, rest } => {
                &&& action@ matches FlushActionView::Write { slot: s, kind: k, batch: b, rest: r }
                &&& s == slot
                &&& k == kind
                &&& b == batch@
                &&& r == rest@
            },
            FlushAction::Done(Ok(n)) => action@ matches FlushActionView::Done(Ok(m)) && m == n,
            FlushAction::Done(Err(e)) => action@ == FlushActionView::Done(Err(e@)),
        },
        match start {
            FlushStart::Sync => start@ == FlushStartView::Sync,
            FlushStart::Begun(a) => start@ == FlushStartView::Begun(a@),
        },
        match counters {
            CounterAction::Store { blob, rest } => counters@ == (CounterActionView::Store {
                blob: blob@,
                rest: rest@,
            }),
            CounterAction::Done(n) => counters@ matches CounterActionView::Done(m) && m == n,
        },
{
}

/// A batch, as the laws speak of it, holds the pairs that the host is handed, in
/// their order.
pub proof fn law_batch_is_what_is_handed_out(batch: TableBatch, i: int)
    ensures
        batch@.table == batch.table_name@,
        batch@.pairs.len() == batch.pairs@.len(),
        0 <= i < batch.pairs@.len() ==> batch@.pairs[i].0 == batch.pairs@[i].0@
            && batch@.pairs[i].1 == batch.pairs@[i].1@,
{
}

} // verus!
