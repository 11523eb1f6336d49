//! What the flushes leave on disk, and what a reader sees of it.
//!
//! The disk is modelled as the pairs of every table, as bytes, and the counter
//! blob. To store a batch is to insert its pairs in order, into the table that is
//! registered at the batch's slot, each replacing what that table holds for its
//! key. To store something is all or nothing: the host commits one transaction for
//! it.

use crate::buffer::{
    batches, lookup, pairs_of, slot_of, tables, BatchView, BufferView, EntryView, TargetKind,
};
use crate::counter::{decode_counters, COUNTER_SLOTS};
use crate::error::DbErrorView;
use crate::wrapper::{
    begin_step, chain_step, resume_step, BufferKind, DbFlushView, DbView, Step, StoreActionView,
};
use vstd::prelude::*;

verus! {

/// A table, by its kind and name, and a key in it.
pub struct Place {
    pub kind: BufferKind,
    pub table: Seq<char>,
    pub key: Seq<u8>,
}

/// What is on disk.
#[verifier::ext_equal]
pub struct Disk {
    /// The pairs of all tables.
    pub pairs: Map<Place, Seq<u8>>,
    /// The counter blob.
    pub counters: Option<Seq<u8>>,
}

/// The value on disk for a key.
pub open spec fn stored(disk: Disk, kind: BufferKind, table: Seq<char>, key: Seq<u8>) -> Option<
    Seq<u8>,
> {
    let place = Place { kind, table, key };
    if disk.pairs.contains_key(place) {
        Some(disk.pairs[place])
    } else {
        None
    }
}

/// The counters that a database opened from the disk starts with.
pub open spec fn disk_counters(disk: Disk) -> Seq<u64> {
    match disk.counters {
        Some(blob) => decode_counters(blob),
        None => Seq::new(COUNTER_SLOTS as nat, |i: int| 0),
    }
}

/// The disk after pairs were inserted into a table, in order.
pub open spec fn store_pairs(
    disk: Disk,
    kind: BufferKind,
    table: Seq<char>,
    pairs: Seq<(Seq<u8>, Seq<u8>)>,
) -> Disk
    decreases pairs.len(),
{
    if pairs.len() == 0 {
        disk
    } else {
        let before = store_pairs(disk, kind, table, pairs.drop_last());
        Disk {
            pairs: before.pairs.insert(Place { kind, table, key: pairs.last().0 }, pairs.last().1),
            ..before
        }
    }
}

/// The disk after batches were stored, in order.
pub open spec fn store_batches(disk: Disk, kind: BufferKind, groups: Seq<BatchView>) -> Disk
    decreases groups.len(),
{
    if groups.len() == 0 {
        disk
    } else {
        store_batches(
            store_pairs(disk, kind, groups[0].table, groups[0].pairs),
            kind,
            groups.drop_first(),
        )
    }
}

/// The kind of the tables that a target stands for.
pub open spec fn kind_of(target: TargetKind) -> BufferKind {
    match target {
        TargetKind::Regular => BufferKind::Regular,
        TargetKind::Ttl { .. } => BufferKind::Ttl,
    }
}

/// The disk after what an action of `db` asks for was stored. A batch goes into the
/// table that is registered at its slot, among the tables of its target's kind.
pub open spec fn perform(db: DbView, disk: Disk, action: StoreActionView) -> Disk {
    match action {
        StoreActionView::Counters { blob, .. } => Disk { counters: Some(blob), ..disk },
        StoreActionView::Batch { slot, target, batch, .. } => store_pairs(
            disk,
            kind_of(target),
            db.buffer(kind_of(target)).targets[slot].name,
            batch.pairs,
        ),
        StoreActionView::Done(_) => disk,
    }
}

/// A handle and a disk in the middle of an operation.
pub struct Scene {
    pub db: DbView,
    pub disk: Disk,
    pub action: StoreActionView,
}

/// What is left to do after an action.
pub open spec fn rest_of(action: StoreActionView) -> Option<DbFlushView> {
    match action {
        StoreActionView::Counters { rest, .. } => Some(rest),
        StoreActionView::Batch { rest, .. } => Some(rest),
        StoreActionView::Done(_) => None,
    }
}

/// The host performs an action, with the given outcome, and resumes the operation.
pub open spec fn advance(scene: Scene, outcome: Result<(), DbErrorView>) -> Scene {
    match rest_of(scene.action) {
        None => scene,
        Some(rest) => {
            let (db, action) = resume_step(scene.db, rest, outcome);
            let disk = if outcome is Ok {
                perform(scene.db, scene.disk, scene.action)
            } else {
                scene.disk
            };
            Scene { db, disk, action }
        },
    }
}

/// The host performs one action after the other, with the given outcomes.
pub open spec fn run(scene: Scene, outcomes: Seq<Result<(), DbErrorView>>) -> Scene
    decreases outcomes.len(),
{
    if outcomes.len() == 0 {
        scene
    } else {
        run(advance(scene, outcomes[0]), outcomes.drop_first())
    }
}

/// `n` actions that go well.
pub open spec fn all_well(n: nat) -> Seq<Result<(), DbErrorView>> {
    Seq::new(n, |i: int| Ok(()))
}

/// The scene at the start of an operation.
pub open spec fn scene(step: Step, disk: Disk) -> Scene {
    Scene { db: step.0, disk, action: step.1 }
}

/// The first step of a flush of both buffers.
pub open spec fn flush_step(db: DbView) -> Step {
    chain_step(begin_step(db, BufferKind::Regular, true), true)
}

/// What a buffer-first read of a regular table gives.
pub open spec fn read(db: DbView, disk: Disk, table: Seq<char>, key: Seq<u8>) -> Option<Seq<u8>> {
    match db.buffered(table, key) {
        Some(v) => Some(v),
        None => stored(disk, BufferKind::Regular, table, key),
    }
}

/// Every table with pending entries is registered.
pub open spec fn all_registered(buffer: BufferView) -> bool {
    forall|i: int|
        0 <= i < buffer.entries.len() ==> slot_of(
            buffer.targets,
            (#[trigger] buffer.entries[i]).table,
        ) is Some
}

// ---------------------------------------------------------------------------
// Storing by table keeps the newest value of every key
// ---------------------------------------------------------------------------

/// The last value among the pairs for a key.
pub open spec fn last_value(pairs: Seq<(Seq<u8>, Seq<u8>)>, key: Seq<u8>) -> Option<Seq<u8>>
    decreases pairs.len(),
{
    if pairs.len() == 0 {
        None
    } else if pairs.last().0 == key {
        Some(pairs.last().1)
    } else {
        last_value(pairs.drop_last(), key)
    }
}

/// Grouping by table keeps the newest value of a key.
proof fn lemma_lookup_in_pairs(entries: Seq<EntryView>, table: Seq<char>, key: Seq<u8>)
    ensures
        last_value(pairs_of(entries, table), key) == lookup(entries, table, key),
    decreases entries.len(),
{
    if entries.len() > 0 {
        let front = entries.drop_last();
        let e = entries.last();
        lemma_lookup_in_pairs(front, table, key);
        crate::buffer::lemma_newest(front, table, key);
        if e.table == table {
            assert(pairs_of(entries, table).drop_last() =~= pairs_of(front, table));
        }
    }
}

/// What storing pairs does to each place.
pub(crate) proof fn lemma_store_pairs(
    disk: Disk,
    kind: BufferKind,
    table: Seq<char>,
    pairs: Seq<(Seq<u8>, Seq<u8>)>,
    at: BufferKind,
    t: Seq<char>,
    key: Seq<u8>,
)
    ensures
        stored(store_pairs(disk, kind, table, pairs), at, t, key) == if at == kind && t == table
            && last_value(pairs, key) is Some {
            last_value(pairs, key)
        } else {
            stored(disk, at, t, key)
        },
        store_pairs(disk, kind, table, pairs).counters == disk.counters,
    decreases pairs.len(),
{
    if pairs.len() > 0 {
        lemma_store_pairs(disk, kind, table, pairs.drop_last(), at, t, key);
    }
}

/// What storing batches of distinct tables does to each place.
proof fn lemma_store_batches(
    disk: Disk,
    kind: BufferKind,
    groups: Seq<BatchView>,
    at: BufferKind,
    t: Seq<char>,
    key: Seq<u8>,
)
    requires
        forall|i: int, j: int|
            0 <= i < j < groups.len() ==> (#[trigger] groups[i]).table != (
            #[trigger] groups[j]).table,
    ensures
        store_batches(disk, kind, groups).counters == disk.counters,
        at == kind ==> forall|i: int|
            0 <= i < groups.len() && (#[trigger] groups[i]).table == t ==> stored(
                store_batches(disk, kind, groups),
                at,
                t,
                key,
            ) == match last_value(groups[i].pairs, key) {
                Some(v) => Some(v),
                None => stored(disk, at, t, key),
            },
        (at != kind || forall|i: int|
            0 <= i < groups.len() ==> (#[trigger] groups[i]).table != t) ==> stored(
            store_batches(disk, kind, groups),
            at,
            t,
            key,
        ) == stored(disk, at, t, key),
    decreases groups.len(),
{
    if groups.len() > 0 {
        let first = store_pairs(disk, kind, groups[0].table, groups[0].pairs);
        let others = groups.drop_first();
        lemma_store_pairs(disk, kind, groups[0].table, groups[0].pairs, at, t, key);
        assert forall|i: int, j: int| 0 <= i < j < others.len() implies (#[trigger] others[i]).table
            != (#[trigger] others[j]).table by {
            assert(others[i] == groups[i + 1] && others[j] == groups[j + 1]);
        }
        lemma_store_batches(first, kind, others, at, t, key);
        assert forall|i: int| 1 <= i < groups.len() implies #[trigger] groups[i] == others[
        i - 1] by {}
        assert forall|i: int| 0 <= i < others.len() implies #[trigger] others[i] == groups[
        i + 1] by {}
    }
}

/// After the batches of `entries` were stored, every key that they write has its
/// newest value on disk, and every other place is as it was.
pub proof fn lemma_batches_store_newest(
    disk: Disk,
    kind: BufferKind,
    entries: Seq<EntryView>,
    at: BufferKind,
    table: Seq<char>,
    key: Seq<u8>,
)
    ensures
        store_batches(disk, kind, batches(entries)).counters == disk.counters,
        stored(store_batches(disk, kind, batches(entries)), at, table, key) == match lookup(
            entries,
            table,
            key,
        ) {
            Some(v) if at == kind => Some(v),
            _ => stored(disk, at, table, key),
        },
{
    let groups = batches(entries);
    crate::buffer::lemma_tables(entries);
    assert forall|i: int, j: int| 0 <= i < j < groups.len() implies (#[trigger] groups[i]).table
        != (#[trigger] groups[j]).table by {
        assert(tables(entries)[i] != tables(entries)[j]);
    }
    lemma_store_batches(disk, kind, groups, at, table, key);
    lemma_lookup_in_pairs(entries, table, key);
    if tables(entries).contains(table) {
        let i = choose|i: int| 0 <= i < tables(entries).len() && tables(entries)[i] == table;
        assert(groups[i].table == table);
    } else {
        assert(pairs_of(entries, table).len() == 0);
        assert forall|i: int| 0 <= i < groups.len() implies (#[trigger] groups[i]).table
            != table by {
            assert(tables(entries)[i] == groups[i].table);
            assert(tables(entries).contains(tables(entries)[i]));
        }
    }
}

} // verus!
