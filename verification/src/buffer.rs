//! Unified write buffers: pending writes across all tables of one kind.
//!
//! A buffer keeps its entries in the order of the writes. A flush takes them
//! all, groups them by table and hands out one batch at a time to be stored;
//! the caller stores the batch and reports how that went.

use crate::error::{DbError, DbErrorView};
use vstd::prelude::*;

pub use crate::value::{serialize_value, strip_varint};

verus! {

// ---------------------------------------------------------------------------
// Pending entries
// ---------------------------------------------------------------------------

/// One pending write.
pub struct BufferEntry {
    table_name: String,
    key_bytes: Vec<u8>,
    value_bytes: Vec<u8>,
}

/// One pending write: which table, which key, which value.
#[verifier::ext_equal]
pub struct EntryView {
    pub table: Seq<char>,
    pub key: Seq<u8>,
    pub value: Seq<u8>,
}

impl View for BufferEntry {
    type V = EntryView;

    closed spec fn view(&self) -> EntryView {
        EntryView { table: self.table_name@, key: self.key_bytes@, value: self.value_bytes@ }
    }
}

/// Whether `e` is a write of `key` in `table`.
pub open spec fn concerns(e: EntryView, table: Seq<char>, key: Seq<u8>) -> bool {
    e.table == table && e.key == key
}

/// The position of the most recent write of `key` in `table`.
pub open spec fn newest(entries: Seq<EntryView>, table: Seq<char>, key: Seq<u8>) -> Option<int>
    decreases entries.len(),
{
    if entries.len() == 0 {
        None
    } else if concerns(entries.last(), table, key) {
        Some(entries.len() - 1)
    } else {
        newest(entries.drop_last(), table, key)
    }
}

/// The most recently written value of `key` in `table`.
pub open spec fn lookup(entries: Seq<EntryView>, table: Seq<char>, key: Seq<u8>) -> Option<
    Seq<u8>,
> {
    match newest(entries, table, key) {
        Some(i) => Some(entries[i].value),
        None => None,
    }
}

/// The newest position is that of a write of the key with no later one; there is
/// none exactly where no entry writes the key.
pub proof fn lemma_newest(entries: Seq<EntryView>, table: Seq<char>, key: Seq<u8>)
    ensures
        match newest(entries, table, key) {
            Some(i) => 0 <= i < entries.len() && concerns(entries[i], table, key) && forall|j: int|
                i < j < entries.len() ==> !concerns(#[trigger] entries[j], table, key),
            None => forall|j: int|
                0 <= j < entries.len() ==> !concerns(#[trigger] entries[j], table, key),
        },
    decreases entries.len(),
{
    if entries.len() > 0 && !concerns(entries.last(), table, key) {
        let front = entries.drop_last();
        lemma_newest(front, table, key);
        assert forall|j: int|
            0 <= j < entries.len() && (match newest(entries, table, key) {
                Some(i) => i < j,
                None => true,
            }) implies !concerns(#[trigger] entries[j], table, key) by {
            if j < front.len() {
                assert(entries[j] == front[j]);
            }
        }
    }
}

// ---------------------------------------------------------------------------
// Grouping by table
// ---------------------------------------------------------------------------

/// The pending pairs of one table, oldest first.
pub struct TableBatch {
    pub table_name: String,
    pub pairs: Vec<(Vec<u8>, Vec<u8>)>,
}

/// The pending pairs of one table, oldest first.
#[verifier::ext_equal]
pub struct BatchView {
    pub table: Seq<char>,
    pub pairs: Seq<(Seq<u8>, Seq<u8>)>,
}

impl View for TableBatch {
    type V = BatchView;

    open spec fn view(&self) -> BatchView {
        BatchView {
            table: self.table_name@,
            pairs: self.pairs@.map_values(|p: (Vec<u8>, Vec<u8>)| (p.0@, p.1@)),
        }
    }
}

/// The tables that the entries write to, each once, in the order in which they
/// first occur.
pub open spec fn tables(entries: Seq<EntryView>) -> Seq<Seq<char>>
    decreases entries.len(),
{
    if entries.len() == 0 {
        Seq::empty()
    } else {
        let before = tables(entries.drop_last());
        if before.contains(entries.last().table) {
            before
        } else {
            before.push(entries.last().table)
        }
    }
}

/// What the entries write to `table`, oldest first.
pub open spec fn pairs_of(entries: Seq<EntryView>, table: Seq<char>) -> Seq<(Seq<u8>, Seq<u8>)>
    decreases entries.len(),
{
    if entries.len() == 0 {
        Seq::empty()
    } else {
        let before = pairs_of(entries.drop_last(), table);
        if entries.last().table == table {
            before.push((entries.last().key, entries.last().value))
        } else {
            before
        }
    }
}

/// The entries grouped by table.
pub open spec fn batches(entries: Seq<EntryView>) -> Seq<BatchView> {
    Seq::new(
        tables(entries).len(),
        |i: int|
            BatchView { table: tables(entries)[i], pairs: pairs_of(entries, tables(entries)[i]) },
    )
}

/// A table is listed once, and only where some entry writes to it.
pub proof fn lemma_tables(entries: Seq<EntryView>)
    ensures
        tables(entries).no_duplicates(),
        forall|t: Seq<char>| #[trigger]
            tables(entries).contains(t) <==> pairs_of(entries, t).len() > 0,
        forall|t: Seq<char>| #[trigger]
            tables(entries).contains(t) <==> exists|i: int|
                0 <= i < entries.len() && (#[trigger] entries[i]).table == t,
    decreases entries.len(),
{
    if entries.len() > 0 {
        let front = entries.drop_last();
        let last = entries.last().table;
        let before = tables(front);
        let now = tables(entries);
        lemma_tables(front);
        assert forall|t: Seq<char>| #[trigger]
            now.contains(t) <==> (before.contains(t) || t == last) by {
            if before.contains(t) {
                let i = choose|i: int| 0 <= i < before.len() && before[i] == t;
                assert(now[i] == t);
            }
            if t == last && !before.contains(last) {
                assert(now[before.len() as int] == t);
            }
            if now.contains(t) {
                let i = choose|i: int| 0 <= i < now.len() && now[i] == t;
                if i < before.len() {
                    assert(before[i] == t);
                }
            }
        }
        assert forall|t: Seq<char>| #[trigger]
            now.contains(t) <==> exists|i: int|
                0 <= i < entries.len() && (#[trigger] entries[i]).table == t by {
            if before.contains(t) {
                let i = choose|i: int| 0 <= i < front.len() && (#[trigger] front[i]).table == t;
                assert(entries[i].table == t);
            }
            if t == last {
                assert(entries[entries.len() - 1].table == t);
            }
            if exists|i: int| 0 <= i < entries.len() && (#[trigger] entries[i]).table == t {
                let i = choose|i: int| 0 <= i < entries.len() && (#[trigger] entries[i]).table == t;
                if i < front.len() {
                    assert(front[i].table == t);
                }
            }
        }
        assert forall|t: Seq<char>| #[trigger]
            now.contains(t) <==> pairs_of(entries, t).len() > 0 by {
            assert(before.contains(t) <==> pairs_of(front, t).len() > 0);
        }
    }
}

/// One more entry extends the batch of its table, or opens a new one.
pub(crate) proof fn lemma_batches_push(entries: Seq<EntryView>, e: EntryView)
    ensures
        forall|j: int|
            0 <= j < batches(entries).len() && (#[trigger] batches(entries)[j]).table == e.table
                ==> batches(entries.push(e)) == batches(entries).update(
                j,
                BatchView {
                    table: e.table,
                    pairs: batches(entries)[j].pairs.push((e.key, e.value)),
                },
            ),
        (forall|j: int|
            0 <= j < batches(entries).len() ==> (#[trigger] batches(entries)[j]).table != e.table)
            ==> batches(entries.push(e)) == batches(entries).push(
            BatchView { table: e.table, pairs: seq![(e.key, e.value)] },
        ),
{
    let next = entries.push(e);
    assert(next.drop_last() =~= entries);
    lemma_tables(entries);
    let b = batches(entries);
    assert forall|j: int| 0 <= j < b.len() && (#[trigger] b[j]).table == e.table implies batches(
        next,
    ) == b.update(
        j,
        BatchView { table: e.table, pairs: b[j].pairs.push((e.key, e.value)) },
    ) by {
        assert(tables(entries)[j] == e.table);
        assert(tables(entries).contains(e.table));
        assert(tables(next) == tables(entries));
        assert(batches(next) =~= b.update(
            j,
            BatchView { table: e.table, pairs: b[j].pairs.push((e.key, e.value)) },
        ));
    }
    if forall|j: int| 0 <= j < b.len() ==> (#[trigger] b[j]).table != e.table {
        assert(!tables(entries).contains(e.table)) by {
            if tables(entries).contains(e.table) {
                let j = choose|j: int|
                    0 <= j < tables(entries).len() && tables(entries)[j] == e.table;
                assert(b[j].table == e.table);
            }
        }
        assert(pairs_of(entries, e.table) =~= Seq::empty());
        assert(pairs_of(next, e.table) =~= seq![(e.key, e.value)]);
        assert(batches(next) =~= b.push(
            BatchView { table: e.table, pairs: seq![(e.key, e.value)] },
        ));
    }
}

/// The views of a vector of entries.
pub open spec fn entry_views(entries: Seq<BufferEntry>) -> Seq<EntryView> {
    entries.map_values(|e: BufferEntry| e@)
}

/// The views of a vector of batches.
pub open spec fn batch_views(groups: Seq<TableBatch>) -> Seq<BatchView> {
    groups.map_values(|b: TableBatch| b@)
}

/// The position of the batch of `name`.
fn find_batch(groups: &Vec<TableBatch>, name: &String) -> (found: Option<usize>)
    ensures
        match found {
            Some(j) => j < groups@.len() && batch_views(groups@)[j as int].table == name@,
            None => forall|j: int|
                0 <= j < groups@.len() ==> (#[trigger] batch_views(groups@)[j]).table != name@,
        },
{
    let mut j: usize = 0;
    while j < groups.len()
        invariant
            j <= groups@.len(),
            forall|i: int| 0 <= i < j ==> (#[trigger] batch_views(groups@)[i]).table != name@,
        decreases groups@.len() - j,
    {
        if groups[j].table_name == *name {
            return Some(j);
        }
        j = j + 1;
    }
    None
}

/// Group entries by table, keeping the order of the writes within each.
fn group_by_table(entries: Vec<BufferEntry>) -> (groups: Vec<TableBatch>)
    ensures
        batch_views(groups@) == batches(entry_views(entries@)),
{
    let ghost all = entry_views(entries@);
    let mut groups: Vec<TableBatch> = Vec::new();
    assert(batch_views(groups@) =~= batches(all.take(0)));
    for e in iter: entries
        invariant
            iter.seq() == entries@,
            all == entry_views(entries@),
            batch_views(groups@) == batches(all.take(iter.index() as int)),
    {
        let ghost i = iter.index() as int;
        let ghost done = all.take(i);
        let ghost before = batch_views(groups@);
        assert(e == entries@[i]);
        assert(all.take(i + 1) =~= done.push(e@));
        proof {
            lemma_batches_push(done, e@);
        }
        let ghost ev = e@;
        match find_batch(&groups, &e.table_name) {
            Some(j) => {
                groups[j].pairs.push((e.key_bytes, e.value_bytes));
                assert(groups@[j as int]@ =~= BatchView {
                    table: ev.table,
                    pairs: before[j as int].pairs.push((ev.key, ev.value)),
                });
                assert(batch_views(groups@) =~= before.update(j as int, groups@[j as int]@));
            },
            None => {
                let mut pairs: Vec<(Vec<u8>, Vec<u8>)> = Vec::new();
                pairs.push((e.key_bytes, e.value_bytes));
                groups.push(TableBatch { table_name: e.table_name, pairs });
                assert(groups@.last()@ =~= BatchView {
                    table: ev.table,
                    pairs: seq![(ev.key, ev.value)],
                });
                assert(batch_views(groups@) =~= before.push(groups@.last()@));
            },
        }
    }
    assert(all.take(all.len() as int) =~= all);
    groups
}

// ---------------------------------------------------------------------------
// Flush targets
// ---------------------------------------------------------------------------

/// How the pairs of a registered table are stored.
#[derive(Clone, Copy, Debug, PartialEq, Eq, Structural)]
pub enum TargetKind {
    /// Plain inserts.
    Regular,
    /// Inserts that expire after the given number of nanoseconds.
    Ttl { default_ttl_nanos: u128 },
}

/// A registered table.
pub struct FlushTarget {
    name: String,
    kind: TargetKind,
}

/// A registered table.
#[verifier::ext_equal]
pub struct TargetView {
    pub name: Seq<char>,
    pub kind: TargetKind,
}

impl View for FlushTarget {
    type V = TargetView;

    closed spec fn view(&self) -> TargetView {
        TargetView { name: self.name@, kind: self.kind }
    }
}

/// The slot at which `name` is registered.
pub open spec fn slot_of(targets: Seq<TargetView>, name: Seq<char>) -> Option<int>
    decreases targets.len(),
{
    if targets.len() == 0 {
        None
    } else if targets.last().name == name {
        Some(targets.len() - 1)
    } else {
        slot_of(targets.drop_last(), name)
    }
}

/// The targets after `name` was registered: in its old slot where it had one,
/// else in a new one.
pub open spec fn registered(targets: Seq<TargetView>, name: Seq<char>, kind: TargetKind) -> Seq<
    TargetView,
> {
    let target = TargetView { name, kind };
    match slot_of(targets, name) {
        Some(i) => targets.update(i, target),
        None => targets.push(target),
    }
}

/// Every table is registered once.
pub open spec fn distinct_names(targets: Seq<TargetView>) -> bool {
    forall|i: int, j: int|
        0 <= i < j < targets.len() ==> (#[trigger] targets[i]).name != (#[trigger] targets[j]).name
}

/// A slot holds the table that it was found for; a table without a slot is
/// nowhere among the targets.
pub proof fn lemma_slot_of(targets: Seq<TargetView>, name: Seq<char>)
    ensures
        match slot_of(targets, name) {
            Some(i) => 0 <= i < targets.len() && targets[i].name == name,
            None => forall|i: int|
                0 <= i < targets.len() ==> (#[trigger] targets[i]).name != name,
        },
    decreases targets.len(),
{
    if targets.len() > 0 && targets.last().name != name {
        let front = targets.drop_last();
        lemma_slot_of(front, name);
        assert forall|i: int|
            0 <= i < targets.len() && slot_of(targets, name) is None implies (
        #[trigger] targets[i]).name != name by {
            if i < front.len() {
                assert(front[i] == targets[i]);
            }
        }
    }
}

/// Every slot that is found holds the table that it was found for.
pub(crate) proof fn lemma_slots(targets: Seq<TargetView>)
    ensures
        forall|name: Seq<char>|
            match #[trigger] slot_of(targets, name) {
                Some(i) => 0 <= i < targets.len() && targets[i].name == name,
                None => true,
            },
{
    assert forall|name: Seq<char>|
        match #[trigger] slot_of(targets, name) {
            Some(i) => 0 <= i < targets.len() && targets[i].name == name,
            None => true,
        } by {
        lemma_slot_of(targets, name);
    }
}

/// Where names are distinct, the slot of a table is the one that holds it.
pub proof fn lemma_slot_unique(targets: Seq<TargetView>, i: int)
    requires
        distinct_names(targets),
        0 <= i < targets.len(),
    ensures
        slot_of(targets, targets[i].name) == Some(i),
{
    lemma_slot_of(targets, targets[i].name);
}

// ---------------------------------------------------------------------------
// Flush in progress
// ---------------------------------------------------------------------------

/// The rest of a flush: the batches still to be stored.
pub struct BufferFlush {
    batches: Vec<TableBatch>,
    count: usize,
}

/// The rest of a flush: the batches still to be stored, and how many entries the
/// flush took from the buffer.
#[verifier::ext_equal]
pub struct BufferFlushView {
    pub batches: Seq<BatchView>,
    pub count: nat,
}

impl View for BufferFlush {
    type V = BufferFlushView;

    closed spec fn view(&self) -> BufferFlushView {
        BufferFlushView { batches: batch_views(self.batches@), count: self.count as nat }
    }
}

/// What a flush needs next.
pub enum FlushAction {
    /// Store `batch` in the table at `slot`, then call [`BufferStore::resume`].
    Write { slot: usize, kind: TargetKind, batch: TableBatch, rest: BufferFlush },
    /// Nothing: the flush is over, with the number of entries stored or an error.
    Done(Result<usize, DbError>),
}

/// What a flush needs next.
pub enum FlushActionView {
    Write { slot: int, kind: TargetKind, batch: BatchView, rest: BufferFlushView },
    Done(Result<nat, DbErrorView>),
}

impl View for FlushAction {
    type V = FlushActionView;

    open spec fn view(&self) -> FlushActionView {
        match *self {
            FlushAction::Write { slot, kind, batch, rest } => FlushActionView::Write {
                slot: slot as int,
                kind,
                batch: batch@,
                rest: rest@,
            },
            FlushAction::Done(Ok(n)) => FlushActionView::Done(Ok(n as nat)),
            FlushAction::Done(Err(e)) => FlushActionView::Done(Err(e@)),
        }
    }
}

/// What a flush needs first.
pub enum FlushStart {
    /// To bring related state to disk; then call [`BufferStore::collect`]. Where that
    /// failed, the flush is over and the entries stay pending.
    Sync,
    /// Nothing: the flush has taken the entries.
    Begun(FlushAction),
}

/// What a flush needs first.
pub enum FlushStartView {
    Sync,
    Begun(FlushActionView),
}

impl View for FlushStart {
    type V = FlushStartView;

    open spec fn view(&self) -> FlushStartView {
        match *self {
            FlushStart::Sync => FlushStartView::Sync,
            FlushStart::Begun(action) => FlushStartView::Begun(action@),
        }
    }
}

/// The outcome of storing something, with the error as its view.
pub open spec fn outcome_view(outcome: Result<(), DbError>) -> Result<(), DbErrorView> {
    match outcome {
        Ok(_) => Ok(()),
        Err(e) => Err(e@),
    }
}

/// What comes next where `run` is left: its first batch, an error if that
/// batch's table is not registered, or the end.
pub open spec fn next_action(targets: Seq<TargetView>, run: BufferFlushView) -> FlushActionView {
    if run.batches.len() == 0 {
        FlushActionView::Done(Ok(run.count))
    } else {
        match slot_of(targets, run.batches[0].table) {
            None => FlushActionView::Done(
                Err(DbErrorView::TableNotFound(run.batches[0].table)),
            ),
            Some(i) => FlushActionView::Write {
                slot: i,
                kind: targets[i].kind,
                batch: run.batches[0],
                rest: BufferFlushView { batches: run.batches.drop_first(), count: run.count },
            },
        }
    }
}

/// What comes after a batch was stored, or failed to be.
pub open spec fn resume_action(
    targets: Seq<TargetView>,
    run: BufferFlushView,
    outcome: Result<(), DbErrorView>,
) -> FlushActionView {
    match outcome {
        Ok(_) => next_action(targets, run),
        Err(e) => FlushActionView::Done(Err(e)),
    }
}

// ---------------------------------------------------------------------------
// BufferStore
// ---------------------------------------------------------------------------

/// A single buffer holding pending writes across all tables of one kind
/// (regular or TTL).
pub struct BufferStore {
    /// Pending entries, oldest first.
    entries: Vec<BufferEntry>,
    /// How to flush each table.
    targets: Vec<FlushTarget>,
    /// Max pending entries before auto-flush (0 = no limit).
    max_size: usize,
    /// Whether related state is brought to disk before every flush.
    on_flush: bool,
}

/// The contents of a [`BufferStore`].
#[verifier::ext_equal]
pub struct BufferView {
    pub entries: Seq<EntryView>,
    pub targets: Seq<TargetView>,
    pub max_size: nat,
    pub on_flush: bool,
}

impl BufferView {
    /// The buffer with one more entry.
    pub open spec fn pushed(self, table: Seq<char>, key: Seq<u8>, value: Seq<u8>) -> BufferView {
        BufferView { entries: self.entries.push(EntryView { table, key, value }), ..self }
    }

    /// Whether the buffer has reached its limit.
    pub open spec fn full(self) -> bool {
        self.max_size > 0 && self.entries.len() >= self.max_size
    }

    /// The buffer after a flush took its entries.
    pub open spec fn collected(self) -> BufferView {
        BufferView { entries: Seq::empty(), ..self }
    }

    /// What a flush needs next once it has taken the entries.
    pub open spec fn collect_action(self) -> FlushActionView {
        if self.entries.len() == 0 {
            FlushActionView::Done(Ok(0))
        } else {
            next_action(
                self.targets,
                BufferFlushView { batches: batches(self.entries), count: self.entries.len() },
            )
        }
    }

    /// The buffer after a flush began.
    pub open spec fn flush_begun(self) -> BufferView {
        if self.on_flush {
            self
        } else {
            self.collected()
        }
    }

    /// What a flush needs first.
    pub open spec fn flush_start(self) -> FlushStartView {
        if self.on_flush {
            FlushStartView::Sync
        } else {
            FlushStartView::Begun(self.collect_action())
        }
    }
}

impl View for BufferStore {
    type V = BufferView;

    closed spec fn view(&self) -> BufferView {
        BufferView {
            entries: entry_views(self.entries@),
            targets: self.targets@.map_values(|t: FlushTarget| t@),
            max_size: self.max_size as nat,
            on_flush: self.on_flush,
        }
    }
}

impl BufferStore {
    /// Every table is registered once.
    pub open spec fn wf(&self) -> bool {
        distinct_names(self@.targets)
    }

    /// An empty buffer without registered tables.
    pub fn new(max_size: usize) -> (store: Self)
        ensures
            store.wf(),
            store@ == (BufferView {
                entries: Seq::empty(),
                targets: Seq::empty(),
                max_size: max_size as nat,
                on_flush: false,
            }),
    {
        let store = BufferStore {
            entries: Vec::new(),
            targets: Vec::new(),
            max_size,
            on_flush: false,
        };
        assert(store@.entries =~= Seq::empty());
        assert(store@.targets =~= Seq::empty());
        store
    }

    /// Have every flush ask for related state (e.g., counters) first.
    pub fn set_on_flush(&mut self)
        ensures
            old(self).wf() ==> final(self).wf(),
            final(self)@ == (BufferView { on_flush: true, ..old(self)@ }),
    {
        self.on_flush = true;
    }

    /// The slot at which `name` is registered.
    fn find_target(&self, name: &String) -> (slot: Option<usize>)
        ensures
            match slot {
                Some(i) => slot_of(self@.targets, name@) == Some(i as int) && i
                    < self.targets@.len(),
                None => slot_of(self@.targets, name@) is None,
            },
    {
        let mut i: usize = self.targets.len();
        let ghost all = self@.targets;
        assert(all.take(i as int) =~= all);
        while i > 0
            invariant
                i <= self.targets@.len(),
                all == self@.targets,
                slot_of(all, name@) == slot_of(all.take(i as int), name@),
            decreases i,
        {
            i = i - 1;
            assert(all.take(i + 1).drop_last() =~= all.take(i as int));
            assert(all.take(i + 1).last() == self.targets@[i as int]@);
            if self.targets[i].name == *name {
                return Some(i);
            }
        }
        None
    }

    /// Register `name`, in its old slot where it has one.
    fn register(&mut self, name: &str, kind: TargetKind) -> (slot: usize)
        requires
            old(self).wf(),
        ensures
            final(self).wf(),
            final(self)@ == (BufferView {
                targets: registered(old(self)@.targets, name@, kind),
                ..old(self)@
            }),
            slot_of(final(self)@.targets, name@) == Some(slot as int),
    {
        let owned = name.to_owned();
        let ghost before = self@.targets;
        proof {
            lemma_slot_of(before, name@);
        }
        let slot = match self.find_target(&owned) {
            Some(i) => {
                self.targets[i] = FlushTarget { name: owned, kind };
                assert(self@.targets =~= before.update(i as int, TargetView { name: name@, kind }));
                i
            },
            None => {
                let i = self.targets.len();
                self.targets.push(FlushTarget { name: owned, kind });
                assert(self@.targets =~= before.push(TargetView { name: name@, kind }));
                i
            },
        };
        proof {
            lemma_slot_unique(self@.targets, slot as int);
        }
        slot
    }

    /// Register a regular table for flushing.
    ///
    /// Returns the slot by which the batches of the table are handed out.
    pub fn register_regular(&mut self, name: &str) -> (slot: usize)
        requires
            old(self).wf(),
        ensures
            final(self).wf(),
            final(self)@ == (BufferView {
                targets: registered(old(self)@.targets, name@, TargetKind::Regular),
                ..old(self)@
            }),
            slot_of(final(self)@.targets, name@) == Some(slot as int),
    {
        self.register(name, TargetKind::Regular)
    }

    /// Register a TTL table for flushing.
    ///
    /// Returns the slot by which the batches of the table are handed out.
    pub fn register_ttl(&mut self, name: &str, default_ttl_nanos: u128) -> (slot: usize)
        requires
            old(self).wf(),
        ensures
            final(self).wf(),
            final(self)@ == (BufferView {
                targets: registered(
                    old(self)@.targets,
                    name@,
                    TargetKind::Ttl { default_ttl_nanos },
                ),
                ..old(self)@
            }),
            slot_of(final(self)@.targets, name@) == Some(slot as int),
    {
        self.register(name, TargetKind::Ttl { default_ttl_nanos })
    }

    /// Push a serialised key-value pair. Begins a flush if `force_flush` is set or
    /// the limit is reached, and returns what that flush needs first.
    pub fn push(
        &mut self,
        table_name: &str,
        key_bytes: Vec<u8>,
        value_bytes: Vec<u8>,
        force_flush: bool,
    ) -> (flush: Option<FlushStart>)
        ensures
            old(self).wf() ==> final(self).wf(),
            ({
                let pushed = old(self)@.pushed(table_name@, key_bytes@, value_bytes@);
                if force_flush || pushed.full() {
                    &&& final(self)@ == pushed.flush_begun()
                    &&& flush matches Some(start) && start@ == pushed.flush_start()
                } else {
                    &&& final(self)@ == pushed
                    &&& flush is None
                }
            }),
    {
        let ghost pushed = self@.pushed(table_name@, key_bytes@, value_bytes@);
        self.entries.push(
            BufferEntry { table_name: table_name.to_owned(), key_bytes, value_bytes },
        );
        assert(self@ =~= pushed);
        let len = self.entries.len();
        let should_flush = force_flush || (self.max_size > 0 && len >= self.max_size);
        if should_flush {
            Some(self.flush())
        } else {
            None
        }
    }

    /// Whether the entry at `i` is a write of the key.
    fn concerns_at(&self, i: usize, table_name: &String, key_bytes: &[u8]) -> (yes: bool)
        requires
            i < self.entries@.len(),
        ensures
            yes == concerns(self@.entries[i as int], table_name@, key_bytes@),
    {
        let e = &self.entries[i];
        if e.table_name == *table_name {
            bytes_equal(e.key_bytes.as_slice(), key_bytes)
        } else {
            false
        }
    }

    /// The position of the most recent write of the key.
    fn find_newest(&self, table_name: &str, key_bytes: &[u8]) -> (found: Option<usize>)
        ensures
            match found {
                Some(i) => i < self.entries@.len() && newest(
                    self@.entries,
                    table_name@,
                    key_bytes@,
                ) == Some(i as int),
                None => newest(self@.entries, table_name@, key_bytes@) is None,
            },
    {
        let wanted = table_name.to_owned();
        let ghost all = self@.entries;
        let mut i: usize = self.entries.len();
        assert(all.take(i as int) =~= all);
        while i > 0
            invariant
                i <= self.entries@.len(),
                all == self@.entries,
                wanted@ == table_name@,
                newest(all, table_name@, key_bytes@) == newest(
                    all.take(i as int),
                    table_name@,
                    key_bytes@,
                ),
            decreases i,
        {
            i = i - 1;
            assert(all.take(i + 1).drop_last() =~= all.take(i as int));
            assert(all.take(i + 1).last() == all[i as int]);
            if self.concerns_at(i, &wanted, key_bytes) {
                return Some(i);
            }
        }
        None
    }

    /// Look up the most recent value for a key in the buffer.
    /// Returns `None` if not found.
    pub fn get(&self, table_name: &str, key_bytes: &[u8]) -> (found: Option<Vec<u8>>)
        ensures
            match found {
                Some(v) => lookup(self@.entries, table_name@, key_bytes@) == Some(v@),
                None => lookup(self@.entries, table_name@, key_bytes@) is None,
            },
    {
        match self.find_newest(table_name, key_bytes) {
            Some(i) => {
                let value = self.entries[i].value_bytes.clone();
                assert(value@ =~= self@.entries[i as int].value);
                Some(value)
            },
            None => None,
        }
    }

    /// Remove the most recent entry for a key from the buffer.
    /// Returns `true` if an entry was removed.
    pub fn remove(&mut self, table_name: &str, key_bytes: &[u8]) -> (removed: bool)
        ensures
            old(self).wf() ==> final(self).wf(),
            match newest(old(self)@.entries, table_name@, key_bytes@) {
                Some(i) => removed && final(self)@ == (BufferView {
                    entries: old(self)@.entries.remove(i),
                    ..old(self)@
                }),
                None => !removed && final(self)@ == old(self)@,
            },
    {
        let ghost before = self@.entries;
        match self.find_newest(table_name, key_bytes) {
            Some(i) => {
                self.entries.remove(i);
                assert(self@.entries =~= before.remove(i as int));
                true
            },
            None => false,
        }
    }

    /// Number of pending entries.
    pub fn len(&self) -> (n: usize)
        ensures
            n == self@.entries.len(),
    {
        self.entries.len()
    }

    /// Begin to flush all pending entries, and return what the flush needs first.
    pub fn flush(&mut self) -> (start: FlushStart)
        ensures
            old(self).wf() ==> final(self).wf(),
            final(self)@ == old(self)@.flush_begun(),
            start@ == old(self)@.flush_start(),
    {
        if self.on_flush {
            FlushStart::Sync
        } else {
            FlushStart::Begun(self.collect())
        }
    }

    /// Take all pending entries for a flush, and return what it needs next.
    pub fn collect(&mut self) -> (action: FlushAction)
        ensures
            old(self).wf() ==> final(self).wf(),
            final(self)@ == old(self)@.collected(),
            action@ == old(self)@.collect_action(),
    {
        if self.entries.is_empty() {
            assert(self@.entries =~= Seq::empty());
            return FlushAction::Done(Ok(0));
        }
        let mut taken: Vec<BufferEntry> = Vec::new();
        std::mem::swap(&mut taken, &mut self.entries);
        assert(self@.entries =~= Seq::empty());
        let count = taken.len();
        let batches = group_by_table(taken);
        self.next_batch(BufferFlush { batches, count })
    }

    /// Go on with a flush after its last batch was stored, or failed to be.
    /// An error ends the flush, and the batches that are not stored yet are dropped.
    pub fn resume(&self, rest: BufferFlush, outcome: Result<(), DbError>) -> (action: FlushAction)
        ensures
            action@ == resume_action(self@.targets, rest@, outcome_view(outcome)),
    {
        match outcome {
            Ok(_) => self.next_batch(rest),
            Err(e) => FlushAction::Done(Err(e)),
        }
    }

    /// Hand out the next batch, if its table is registered.
    fn next_batch(&self, rest: BufferFlush) -> (action: FlushAction)
        ensures
            action@ == next_action(self@.targets, rest@),
    {
        let mut rest = rest;
        if rest.batches.is_empty() {
            return FlushAction::Done(Ok(rest.count));
        }
        let ghost all = rest@.batches;
        let batch = rest.batches.remove(0);
        assert(batch@ == all[0]);
        assert(rest@.batches =~= all.drop_first());
        match self.find_target(&batch.table_name) {
            None => FlushAction::Done(Err(DbError::TableNotFound(batch.table_name))),
            Some(slot) => {
                let kind = self.targets[slot].kind;
                FlushAction::Write { slot, kind, batch, rest }
            },
        }
    }
}

/// Whether two byte slices hold the same bytes.
fn bytes_equal(a: &[u8], b: &[u8]) -> (same: bool)
    ensures
        same == (a@ == b@),
{
    if a.len() != b.len() {
        return false;
    }
    let mut i: usize = 0;
    while i < a.len()
        invariant
            i <= a@.len(),
            a@.len() == b@.len(),
            forall|j: int| 0 <= j < i ==> a@[j] == b@[j],
        decreases a@.len() - i,
    {
        if a[i] != b[i] {
            return false;
        }
        i = i + 1;
    }
    assert(a@ =~= b@);
    true
}

} // verus!
