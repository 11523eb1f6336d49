//! DBWrapper: the state of a database handle. Counters, buffers, lookups.
//!
//! The handle decides; the host application stores. An operation that needs
//! something stored returns a [`StoreAction`]. The host performs it and calls
//! [`DBWrapper::resume`] with the outcome, until the action is
//! [`StoreAction::Done`].

use crate::buffer::{
    lookup, outcome_view, registered, resume_action, slot_of, BatchView, BufferFlush,
    BufferFlushView, BufferStore, BufferView, FlushAction, FlushActionView, FlushStart,
    FlushStartView, TableBatch, TargetKind,
};
use crate::counter::{
    blob_fits, stored_counters, CounterAction, CounterActionView, CounterFlush, CounterStore,
    CounterView, BUFFER_FLUSH_SECS, BUFFER_MAX_ENTRIES,
};
use crate::error::{DbError, DbErrorView};
use crate::value::{serialize_value, StoredValue};
use vstd::prelude::*;

verus! {

/// Which of the two buffers.
#[derive(Clone, Copy, Debug, PartialEq, Eq, Structural)]
pub enum BufferKind {
    Regular,
    Ttl,
}

/// Where a flush is.
enum FlushStage {
    /// The counters are being stored.
    Counters(CounterFlush),
    /// The batches of a buffer are being stored.
    Tables(BufferFlush),
}

/// The rest of a flush.
pub struct DbFlush {
    /// The buffer that is being flushed.
    kind: BufferKind,
    /// Whether the TTL buffer is flushed after it.
    then_ttl: bool,
    stage: FlushStage,
}

/// Where a flush is.
pub enum FlushStageView {
    Counters(Seq<u64>),
    Tables(BufferFlushView),
}

/// The rest of a flush.
pub struct DbFlushView {
    pub kind: BufferKind,
    pub then_ttl: bool,
    pub stage: FlushStageView,
}

impl View for DbFlush {
    type V = DbFlushView;

    closed spec fn view(&self) -> DbFlushView {
        DbFlushView {
            kind: self.kind,
            then_ttl: self.then_ttl,
            stage: match self.stage {
                FlushStage::Counters(rest) => FlushStageView::Counters(rest@),
                FlushStage::Tables(rest) => FlushStageView::Tables(rest@),
            },
        }
    }
}

/// What an operation needs from the host application.
pub enum StoreAction {
    /// Store `blob` in the counter database, then call [`DBWrapper::resume`].
    Counters { blob: Vec<u8>, rest: DbFlush },
    /// Store `batch` in the table registered at `slot` of the buffer `kind`, then
    /// call [`DBWrapper::resume`].
    Batch {
        kind: BufferKind,
        slot: usize,
        target: TargetKind,
        batch: TableBatch,
        rest: DbFlush,
    },
    /// Nothing: the operation is over.
    Done(Result<(), DbError>),
}

/// What an operation needs from the host application.
pub enum StoreActionView {
    Counters { blob: Seq<u8>, rest: DbFlushView },
    Batch {
        kind: BufferKind,
        slot: int,
        target: TargetKind,
        batch: BatchView,
        rest: DbFlushView,
    },
    Done(Result<(), DbErrorView>),
}

impl View for StoreAction {
    type V = StoreActionView;

    open spec fn view(&self) -> StoreActionView {
        match *self {
            StoreAction::Counters { blob, rest } => StoreActionView::Counters {
                blob: blob@,
                rest: rest@,
            },
            StoreAction::Batch { kind, slot, target, batch, rest } => StoreActionView::Batch {
                kind,
                slot: slot as int,
                target,
                batch: batch@,
                rest: rest@,
            },
            StoreAction::Done(outcome) => StoreActionView::Done(outcome_view(outcome)),
        }
    }
}

/// The contents of a [`DBWrapper`].
#[verifier::ext_equal]
pub struct DbView {
    pub regular: BufferView,
    pub ttl: BufferView,
    pub counters: CounterView,
}

impl DbView {
    /// One of the two buffers.
    pub open spec fn buffer(self, kind: BufferKind) -> BufferView {
        match kind {
            BufferKind::Regular => self.regular,
            BufferKind::Ttl => self.ttl,
        }
    }

    /// The handle with one of the two buffers replaced.
    pub open spec fn with_buffer(self, kind: BufferKind, buffer: BufferView) -> DbView {
        match kind {
            BufferKind::Regular => DbView { regular: buffer, ..self },
            BufferKind::Ttl => DbView { ttl: buffer, ..self },
        }
    }

    /// What is pending for a key: in the regular buffer, else in the TTL buffer.
    pub open spec fn buffered(self, table: Seq<char>, key: Seq<u8>) -> Option<Seq<u8>> {
        match lookup(self.regular.entries, table, key) {
            Some(v) => Some(v),
            None => lookup(self.ttl.entries, table, key),
        }
    }
}

/// A handle, and what its operation needs next.
pub type Step = (DbView, StoreActionView);

/// A flush of `kind` that stands before `action`.
pub open spec fn table_step(
    db: DbView,
    kind: BufferKind,
    then_ttl: bool,
    action: FlushActionView,
) -> Step {
    match action {
        FlushActionView::Write { slot, kind: target, batch, rest } => (
            db,
            StoreActionView::Batch {
                kind,
                slot,
                target,
                batch,
                rest: DbFlushView { kind, then_ttl, stage: FlushStageView::Tables(rest) },
            },
        ),
        FlushActionView::Done(Ok(_)) => (db, StoreActionView::Done(Ok(()))),
        FlushActionView::Done(Err(e)) => (db, StoreActionView::Done(Err(e))),
    }
}

/// A flush of `kind` that takes the entries of the buffer.
pub open spec fn collect_step(db: DbView, kind: BufferKind, then_ttl: bool) -> Step {
    table_step(
        db.with_buffer(kind, db.buffer(kind).collected()),
        kind,
        then_ttl,
        db.buffer(kind).collect_action(),
    )
}

/// A flush of `kind` that brings the counters to disk first, where they changed.
pub open spec fn sync_step(db: DbView, kind: BufferKind, then_ttl: bool) -> Step {
    match db.counters.flush_action() {
        CounterActionView::Store { blob, rest } => (
            db,
            StoreActionView::Counters {
                blob,
                rest: DbFlushView { kind, then_ttl, stage: FlushStageView::Counters(rest) },
            },
        ),
        CounterActionView::Done(_) => collect_step(db, kind, then_ttl),
    }
}

/// A flush of `kind` that begins.
pub open spec fn start_step(
    db: DbView,
    kind: BufferKind,
    then_ttl: bool,
    start: FlushStartView,
) -> Step {
    match start {
        FlushStartView::Sync => sync_step(db, kind, then_ttl),
        FlushStartView::Begun(action) => table_step(db, kind, then_ttl, action),
    }
}

/// A whole flush of `kind` that begins.
pub open spec fn begin_step(db: DbView, kind: BufferKind, then_ttl: bool) -> Step {
    start_step(
        db.with_buffer(kind, db.buffer(kind).flush_begun()),
        kind,
        then_ttl,
        db.buffer(kind).flush_start(),
    )
}

/// The TTL buffer is flushed after the regular one, if that went well.
pub open spec fn chain_step(step: Step, then_ttl: bool) -> Step {
    if then_ttl && step.1 == StoreActionView::Done(Ok(())) {
        begin_step(step.0, BufferKind::Ttl, false)
    } else {
        step
    }
}

/// A flush that goes on after what it asked for was stored, or failed to be. A
/// failure ends it: where the counters could not be stored, before any batch, and
/// with the entries still pending.
pub open spec fn resume_step(
    db: DbView,
    rest: DbFlushView,
    outcome: Result<(), DbErrorView>,
) -> Step {
    let step = match rest.stage {
        FlushStageView::Counters(snapshot) => {
            let settled = DbView { counters: db.counters.settled(snapshot, outcome), ..db };
            match outcome {
                Ok(_) => collect_step(settled, rest.kind, rest.then_ttl),
                Err(e) => (settled, StoreActionView::Done(Err(e))),
            }
        },
        FlushStageView::Tables(run) => table_step(
            db,
            rest.kind,
            rest.then_ttl,
            resume_action(db.buffer(rest.kind).targets, run, outcome),
        ),
    };
    chain_step(step, rest.then_ttl)
}

/// A write into the buffer `kind`, which begins a flush of that buffer if `force`
/// is set or the buffer is full.
pub open spec fn write_step(
    db: DbView,
    kind: BufferKind,
    table: Seq<char>,
    key: Seq<u8>,
    value: Seq<u8>,
    force: bool,
) -> Step {
    let pushed = db.with_buffer(kind, db.buffer(kind).pushed(table, key, value));
    if force || pushed.buffer(kind).full() {
        begin_step(pushed, kind, false)
    } else {
        (pushed, StoreActionView::Done(Ok(())))
    }
}

/// Whether an entry expires before the next periodic flush.
pub open spec fn expires_soon(ttl_nanos: u128) -> bool {
    ttl_nanos < BUFFER_FLUSH_SECS * 1_000_000_000
}

/// Where the value of a key is to be found.
pub enum Lookup {
    /// In a buffer: the value.
    Buffered(Vec<u8>),
    /// In no buffer: read the key from the database, then call [`Lookup::finish`].
    Stored { key_bytes: Vec<u8> },
}

impl Lookup {
    /// End a lookup with what the database holds, which only matters where no
    /// buffer holds the key.
    pub fn finish(self, stored: Result<Option<Vec<u8>>, DbError>) -> (value: Result<
        Option<Vec<u8>>,
        DbError,
    >)
        ensures
            match self {
                Lookup::Buffered(v) => value == Ok::<Option<Vec<u8>>, DbError>(Some(v)),
                Lookup::Stored { .. } => value == stored,
            },
    {
        match self {
            Lookup::Buffered(v) => Ok(Some(v)),
            Lookup::Stored { .. } => stored,
        }
    }
}

/// Database handle: counters and write buffers.
pub struct DBWrapper {
    /// Unified buffer for regular writes.
    regular_buf: BufferStore,
    /// Unified buffer for TTL writes.
    ttl_buf: BufferStore,
    counters: CounterStore,
}

impl View for DBWrapper {
    type V = DbView;

    closed spec fn view(&self) -> DbView {
        DbView { regular: self.regular_buf@, ttl: self.ttl_buf@, counters: self.counters@ }
    }
}

impl DbView {
    /// Every table is registered once in each buffer, with the kind of the buffer,
    /// and every flush brings the counters to disk first.
    pub open spec fn wf(self) -> bool {
        &&& crate::buffer::distinct_names(self.regular.targets)
        &&& crate::buffer::distinct_names(self.ttl.targets)
        &&& forall|i: int|
            0 <= i < self.regular.targets.len() ==> (#[trigger] self.regular.targets[i]).kind
                is Regular
        &&& forall|i: int|
            0 <= i < self.ttl.targets.len() ==> (#[trigger] self.ttl.targets[i]).kind is Ttl
        &&& self.regular.on_flush
        &&& self.ttl.on_flush
        &&& self.regular.max_size == BUFFER_MAX_ENTRIES
        &&& self.ttl.max_size == BUFFER_MAX_ENTRIES
        &&& self.counters.wf()
    }
}

impl DBWrapper {
    // -- Open ----------------------------------------------------------------

    /// A handle on a database whose counter blob is `stored`, or that has none.
    pub fn new(stored: Option<Vec<u8>>) -> (db: Self)
        requires
            stored matches Some(blob) ==> blob_fits(blob@),
        ensures
            db@.wf(),
            db@.regular == db@.ttl,
            db@.regular.entries == Seq::<crate::buffer::EntryView>::empty(),
            db@.regular.targets == Seq::<crate::buffer::TargetView>::empty(),
            db@.counters.values == stored_counters(stored),
            db@.counters.flushed == stored_counters(stored),
    {
        let counters = CounterStore::new(stored);
        let mut regular_buf = BufferStore::new(BUFFER_MAX_ENTRIES);
        regular_buf.set_on_flush();
        let mut ttl_buf = BufferStore::new(BUFFER_MAX_ENTRIES);
        ttl_buf.set_on_flush();
        DBWrapper { regular_buf, ttl_buf, counters }
    }

    /// Register tables via a closure. Call once at startup.
    pub fn init_tables<F: FnOnce(&mut Self)>(&mut self, f: F)
        requires
            forall|db: &mut Self| *db == *old(self) ==> #[trigger] f.requires((db,)),
        ensures
            exists|db: &mut Self|
                *db == *old(self) && *final(db) == *final(self) && #[trigger] f.ensures((db,), ()),
    {
        f(self);
    }

    // -- Counter -------------------------------------------------------------

    /// The value that the last call of [`DBWrapper::next`] gave for the counter, or
    /// that it was opened with.
    pub fn current(&self, counter_id: u8) -> (value: u64)
        ensures
            value == self@.counters.values[counter_id as int],
    {
        self.counters.current(counter_id)
    }

    /// Increment a counter and return the new value.
    ///
    /// In-memory operation: counters are brought to disk by the flushes.
    pub fn next(&mut self, counter_id: u8) -> (value: u64)
        requires
            old(self)@.counters.values[counter_id as int] < u64::MAX,
        ensures
            old(self)@.wf() ==> final(self)@.wf(),
            final(self)@ == (DbView {
                counters: old(self)@.counters.incremented(counter_id as int),
                ..old(self)@
            }),
            value == old(self)@.counters.values[counter_id as int] + 1,
    {
        self.counters.next(counter_id)
    }

    /// Begin to flush the counters, and return what is needed first.
    pub fn flush_counters(&self) -> (action: CounterAction)
        ensures
            action@ == self@.counters.flush_action(),
    {
        self.counters.flush()
    }

    /// End a counter flush after its blob was stored, or failed to be. Returns the
    /// number of blobs written.
    pub fn settle_counters(
        &mut self,
        rest: CounterFlush,
        outcome: Result<(), DbError>,
    ) -> (written: Result<usize, DbError>)
        ensures
            old(self)@.wf() ==> final(self)@.wf(),
            final(self)@ == (DbView {
                counters: old(self)@.counters.settled(rest@, outcome_view(outcome)),
                ..old(self)@
            }),
            match outcome {
                Ok(_) => written matches Ok(n) && n == 1,
                Err(e) => written matches Err(e2) && e2 == e,
            },
    {
        self.counters.settle(rest, outcome)
    }

    // -- Write (buffered) ----------------------------------------------------

    /// Register a regular table so the buffer knows how to flush it.
    /// Must be called once per table before any writes.
    ///
    /// Returns the slot by which the batches of the table are handed out.
    pub fn register_table(&mut self, table_name: &str) -> (slot: usize)
        requires
            old(self)@.wf(),
        ensures
            final(self)@.wf(),
            final(self)@ == old(self)@.with_buffer(
                BufferKind::Regular,
                BufferView {
                    targets: registered(
                        old(self)@.regular.targets,
                        table_name@,
                        TargetKind::Regular,
                    ),
                    ..old(self)@.regular
                },
            ),
            slot_of(final(self)@.regular.targets, table_name@) == Some(slot as int),
    {
        proof {
            crate::buffer::lemma_slot_of(self@.regular.targets, table_name@);
        }
        self.regular_buf.register_regular(table_name)
    }

    /// Register a TTL table so the buffer knows how to flush it.
    ///
    /// Returns the slot by which the batches of the table are handed out.
    pub fn register_ttl_table(&mut self, table_name: &str, default_ttl_nanos: u128) -> (slot: usize)
        requires
            old(self)@.wf(),
        ensures
            final(self)@.wf(),
            final(self)@ == old(self)@.with_buffer(
                BufferKind::Ttl,
                BufferView {
                    targets: registered(
                        old(self)@.ttl.targets,
                        table_name@,
                        TargetKind::Ttl { default_ttl_nanos },
                    ),
                    ..old(self)@.ttl
                },
            ),
            slot_of(final(self)@.ttl.targets, table_name@) == Some(slot as int),
    {
        proof {
            crate::buffer::lemma_slot_of(self@.ttl.targets, table_name@);
        }
        self.ttl_buf.register_ttl(table_name, default_ttl_nanos)
    }

    /// Write a key-value pair to the regular buffer.
    ///
    /// If that begins a flush of the buffer and the flush ends in an error, the entries
    /// that it took and did not store are dropped, this one among them; where only the
    /// counters could not be stored, all of them stay pending (see
    /// [`resume`](Self::resume)).
    pub fn write<K: StoredValue, V: StoredValue>(
        &mut self,
        table_name: &str,
        key: K,
        value: V,
    ) -> (action: StoreAction)
        requires
            K::encodable(key@),
            V::encodable(value@),
        ensures
            old(self)@.wf() ==> final(self)@.wf(),
            (final(self)@, action@) == write_step(
                old(self)@,
                BufferKind::Regular,
                table_name@,
                K::encode(key@),
                V::encode(value@),
                false,
            ),
    {
        let k_bytes = serialize_value(&key);
        let v_bytes = serialize_value(&value);
        self.write_bytes(table_name, k_bytes, v_bytes)
    }

    /// Write an already serialised key-value pair to the regular buffer.
    ///
    /// If that begins a flush of the buffer and the flush ends in an error, the entries
    /// that it took and did not store are dropped, this one among them; where only the
    /// counters could not be stored, all of them stay pending (see
    /// [`resume`](Self::resume)).
    pub fn write_bytes(
        &mut self,
        table_name: &str,
        key_bytes: Vec<u8>,
        value_bytes: Vec<u8>,
    ) -> (action: StoreAction)
        ensures
            old(self)@.wf() ==> final(self)@.wf(),
            (final(self)@, action@) == write_step(
                old(self)@,
                BufferKind::Regular,
                table_name@,
                key_bytes@,
                value_bytes@,
                false,
            ),
    {
        match self.regular_buf.push(table_name, key_bytes, value_bytes, false) {
            Some(start) => self.start(BufferKind::Regular, false, start),
            None => StoreAction::Done(Ok(())),
        }
    }

    /// Write a key-value pair to the TTL buffer.
    /// If `ttl_nanos` is shorter than the flush interval, force-flushes immediately.
    ///
    /// If that begins a flush of the buffer and the flush ends in an error, the entries
    /// that it took and did not store are dropped, this one among them; where only the
    /// counters could not be stored, all of them stay pending (see
    /// [`resume`](Self::resume)).
    pub fn write_ttl<K: StoredValue, V: StoredValue>(
        &mut self,
        table_name: &str,
        key: K,
        value: V,
        ttl_nanos: u128,
    ) -> (action: StoreAction)
        requires
            K::encodable(key@),
            V::encodable(value@),
        ensures
            old(self)@.wf() ==> final(self)@.wf(),
            (final(self)@, action@) == write_step(
                old(self)@,
                BufferKind::Ttl,
                table_name@,
                K::encode(key@),
                V::encode(value@),
                expires_soon(ttl_nanos),
            ),
    {
        let k_bytes = serialize_value(&key);
        let v_bytes = serialize_value(&value);
        self.write_ttl_bytes(table_name, k_bytes, v_bytes, ttl_nanos)
    }

    /// Write an already serialised key-value pair to the TTL buffer.
    /// If `ttl_nanos` is shorter than the flush interval, force-flushes immediately.
    ///
    /// If that begins a flush of the buffer and the flush ends in an error, the entries
    /// that it took and did not store are dropped, this one among them; where only the
    /// counters could not be stored, all of them stay pending (see
    /// [`resume`](Self::resume)).
    pub fn write_ttl_bytes(
        &mut self,
        table_name: &str,
        key_bytes: Vec<u8>,
        value_bytes: Vec<u8>,
        ttl_nanos: u128,
    ) -> (action: StoreAction)
        ensures
            old(self)@.wf() ==> final(self)@.wf(),
            (final(self)@, action@) == write_step(
                old(self)@,
                BufferKind::Ttl,
                table_name@,
                key_bytes@,
                value_bytes@,
                expires_soon(ttl_nanos),
            ),
    {
        let force: bool = ttl_nanos < BUFFER_FLUSH_SECS as u128 * 1_000_000_000;
        match self.ttl_buf.push(table_name, key_bytes, value_bytes, force) {
            Some(start) => self.start(BufferKind::Ttl, false, start),
            None => StoreAction::Done(Ok(())),
        }
    }

    // -- Read (buffer-first) -------------------------------------------------

    /// Look up a key in the write buffers (regular → TTL).
    /// Returns `None` if not found in either buffer: the caller should fall back to
    /// a direct database read.
    ///
    /// Prefer [`get`](Self::get), which says when to read the database.
    pub fn get_buffered(&self, table_name: &str, key_bytes: &[u8]) -> (found: Option<Vec<u8>>)
        ensures
            match found {
                Some(v) => self@.buffered(table_name@, key_bytes@) == Some(v@),
                None => self@.buffered(table_name@, key_bytes@) is None,
            },
    {
        match self.regular_buf.get(table_name, key_bytes) {
            Some(v) => Some(v),
            None => self.ttl_buf.get(table_name, key_bytes),
        }
    }

    /// Buffer-first read: the value where a buffer holds the key, else the bytes of
    /// the key to read from the database.
    pub fn get<K: StoredValue>(&self, table_name: &str, key: K) -> (found: Lookup)
        requires
            K::encodable(key@),
        ensures
            match found {
                Lookup::Buffered(v) => self@.buffered(table_name@, K::encode(key@)) == Some(v@),
                Lookup::Stored { key_bytes } => key_bytes@ == K::encode(key@) && self@.buffered(
                    table_name@,
                    K::encode(key@),
                ) is None,
            },
    {
        self.get_bytes(table_name, serialize_value(&key))
    }

    /// Buffer-first read of an already serialised key.
    pub fn get_bytes(&self, table_name: &str, key_bytes: Vec<u8>) -> (found: Lookup)
        ensures
            match found {
                Lookup::Buffered(v) => self@.buffered(table_name@, key_bytes@) == Some(v@),
                Lookup::Stored { key_bytes: k } => k == key_bytes && self@.buffered(
                    table_name@,
                    key_bytes@,
                ) is None,
            },
    {
        match self.get_buffered(table_name, key_bytes.as_slice()) {
            Some(v) => Lookup::Buffered(v),
            None => Lookup::Stored { key_bytes },
        }
    }

    // -- Flush ---------------------------------------------------------------

    /// Go on with a flush of `kind` from what the buffer needs next.
    fn route(&self, kind: BufferKind, then_ttl: bool, action: FlushAction) -> (next: StoreAction)
        ensures
            (self@, next@) == table_step(self@, kind, then_ttl, action@),
    {
        match action {
            FlushAction::Write { slot, kind: target, batch, rest } => {
                let rest = DbFlush { kind, then_ttl, stage: FlushStage::Tables(rest) };
                StoreAction::Batch { kind, slot, target, batch, rest }
            },
            FlushAction::Done(Ok(_)) => StoreAction::Done(Ok(())),
            FlushAction::Done(Err(e)) => StoreAction::Done(Err(e)),
        }
    }

    /// Take the entries of a buffer for its flush.
    fn collect(&mut self, kind: BufferKind, then_ttl: bool) -> (next: StoreAction)
        ensures
            (final(self)@, next@) == collect_step(old(self)@, kind, then_ttl),
    {
        let action = match kind {
            BufferKind::Regular => self.regular_buf.collect(),
            BufferKind::Ttl => self.ttl_buf.collect(),
        };
        self.route(kind, then_ttl, action)
    }

    /// Begin a flush of a buffer from what the buffer needs first.
    fn start(&mut self, kind: BufferKind, then_ttl: bool, start: FlushStart) -> (next: StoreAction)
        ensures
            (final(self)@, next@) == start_step(old(self)@, kind, then_ttl, start@),
    {
        match start {
            FlushStart::Sync => match self.counters.flush() {
                CounterAction::Store { blob, rest } => {
                    let rest = DbFlush { kind, then_ttl, stage: FlushStage::Counters(rest) };
                    StoreAction::Counters { blob, rest }
                },
                CounterAction::Done(_) => self.collect(kind, then_ttl),
            },
            FlushStart::Begun(action) => self.route(kind, then_ttl, action),
        }
    }

    /// Begin a whole flush of a buffer.
    fn begin(&mut self, kind: BufferKind, then_ttl: bool) -> (next: StoreAction)
        ensures
            (final(self)@, next@) == begin_step(old(self)@, kind, then_ttl),
    {
        let start = match kind {
            BufferKind::Regular => self.regular_buf.flush(),
            BufferKind::Ttl => self.ttl_buf.flush(),
        };
        self.start(kind, then_ttl, start)
    }

    /// Flush the TTL buffer after the regular one, if that went well.
    fn chain(&mut self, action: StoreAction, then_ttl: bool) -> (next: StoreAction)
        ensures
            (final(self)@, next@) == chain_step((old(self)@, action@), then_ttl),
    {
        if then_ttl {
            match action {
                StoreAction::Done(Ok(_)) => self.begin(BufferKind::Ttl, false),
                other => other,
            }
        } else {
            action
        }
    }

    /// Begin to flush both regular and TTL buffers, and return what is needed
    /// first. The TTL buffer is flushed after the regular one, if that went well.
    ///
    /// A flush that ends in an error drops the entries that it took and did not store;
    /// where only the counters could not be stored, it takes none (see
    /// [`resume`](Self::resume)).
    pub fn flush_buffers(&mut self) -> (action: StoreAction)
        ensures
            old(self)@.wf() ==> final(self)@.wf(),
            (final(self)@, action@) == chain_step(
                begin_step(old(self)@, BufferKind::Regular, true),
                true,
            ),
    {
        let action = self.begin(BufferKind::Regular, true);
        self.chain(action, true)
    }

    /// Go on with a flush after what it asked for was stored, or failed to be.
    ///
    /// An error ends the flush. Where a batch could not be stored or its table is not
    /// registered, the entries of the buffer that are not stored yet are dropped:
    /// they are no longer pending. Where the counters could not be stored, no batch
    /// is, and all entries stay pending for the next flush.
    pub fn resume(&mut self, rest: DbFlush, outcome: Result<(), DbError>) -> (action: StoreAction)
        ensures
            old(self)@.wf() ==> final(self)@.wf(),
            (final(self)@, action@) == resume_step(old(self)@, rest@, outcome_view(outcome)),
    {
        let DbFlush { kind, then_ttl, stage } = rest;
        let action = match stage {
            FlushStage::Counters(rest) => {
                match self.counters.settle(rest, outcome) {
                    Ok(_) => self.collect(kind, then_ttl),
                    Err(e) => StoreAction::Done(Err(e)),
                }
            },
            FlushStage::Tables(rest) => {
                let action = match kind {
                    BufferKind::Regular => self.regular_buf.resume(rest, outcome),
                    BufferKind::Ttl => self.ttl_buf.resume(rest, outcome),
                };
                self.route(kind, then_ttl, action)
            },
        };
        self.chain(action, then_ttl)
    }

    /// Number of pending entries in the regular buffer.
    pub fn pending_writes(&self) -> (n: usize)
        ensures
            n == self@.regular.entries.len(),
    {
        self.regular_buf.len()
    }

    /// Number of pending entries in the TTL buffer.
    pub fn pending_ttl_writes(&self) -> (n: usize)
        ensures
            n == self@.ttl.entries.len(),
    {
        self.ttl_buf.len()
    }
}

} // verus!
