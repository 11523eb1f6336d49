//! In-memory counters with periodic blob flush.
//!
//! Counters are persisted as a single 2048-byte blob under one key. A flush
//! hands out the blob to be stored; the caller stores it and reports how that
//! went.

use crate::buffer::outcome_view;
use crate::error::{DbError, DbErrorView};
use vstd::bytes::{spec_u64_from_le_bytes, spec_u64_to_le_bytes};
use vstd::prelude::*;

verus! {

/// Name of the blob table, which stores all counters as one byte vector.
pub const COUNTER_BLOB: &'static str = "counter_blob";

/// Fixed key for the single blob entry.
pub const COUNTER_BLOB_KEY: u8 = 0;

/// Number of independent counter slots (`counter_id: u8` → 0..=255).
pub const COUNTER_SLOTS: usize = 256;

/// How often the host application should flush buffers and counters (seconds).
pub const BUFFER_FLUSH_SECS: u64 = 10;

/// Max buffer entries before force-flush (OOM guard).
pub const BUFFER_MAX_ENTRIES: usize = 10_000;

/// The values as one blob: eight little-endian bytes each, in order.
pub open spec fn encode_counters(values: Seq<u64>) -> Seq<u8> {
    Seq::new(8 * values.len(), |i: int| spec_u64_to_le_bytes(values[i / 8])[i % 8])
}

/// The counters that a blob holds: each whole group of eight bytes in turn, and
/// zero for the slots that the blob does not reach.
pub open spec fn decode_counters(blob: Seq<u8>) -> Seq<u64> {
    Seq::new(
        COUNTER_SLOTS as nat,
        |i: int|
            if 8 * i + 8 <= blob.len() {
                spec_u64_from_le_bytes(blob.subrange(8 * i, 8 * i + 8))
            } else {
                0
            },
    )
}

/// Whether the blob holds no more than one number for each slot.
pub open spec fn blob_fits(blob: Seq<u8>) -> bool {
    blob.len() / 8 <= COUNTER_SLOTS
}

/// The counters after opening a database that holds `stored`.
pub open spec fn stored_counters(stored: Option<Vec<u8>>) -> Seq<u64> {
    match stored {
        Some(blob) => decode_counters(blob@),
        None => Seq::new(COUNTER_SLOTS as nat, |i: int| 0),
    }
}

/// A blob of all counters is 2048 bytes long, and gives back the counters that
/// were put into it.
pub proof fn lemma_counters_survive(values: Seq<u64>)
    requires
        values.len() == COUNTER_SLOTS,
    ensures
        encode_counters(values).len() == 2048,
        blob_fits(encode_counters(values)),
        decode_counters(encode_counters(values)) == values,
{
    vstd::bytes::lemma_auto_spec_u64_to_from_le_bytes();
    let blob = encode_counters(values);
    assert forall|i: int| 0 <= i < values.len() implies #[trigger] decode_counters(blob)[i]
        == values[i] by {
        assert(blob.subrange(8 * i, 8 * i + 8) =~= spec_u64_to_le_bytes(values[i]));
    }
    assert(decode_counters(blob) =~= values);
}

/// One more value adds its eight bytes.
proof fn lemma_encode_push(values: Seq<u64>, v: u64)
    ensures
        encode_counters(values.push(v)) == encode_counters(values) + spec_u64_to_le_bytes(v),
{
    vstd::bytes::lemma_auto_spec_u64_to_from_le_bytes();
    assert(encode_counters(values.push(v)) =~= encode_counters(values) + spec_u64_to_le_bytes(v));
}

/// Holds the in-memory counter values, and the values that were last stored.
pub struct CounterStore {
    values: [u64; COUNTER_SLOTS],
    flushed: [u64; COUNTER_SLOTS],
}

/// The contents of a [`CounterStore`].
#[verifier::ext_equal]
pub struct CounterView {
    pub values: Seq<u64>,
    pub flushed: Seq<u64>,
}

impl View for CounterStore {
    type V = CounterView;

    closed spec fn view(&self) -> CounterView {
        CounterView { values: self.values@, flushed: self.flushed@ }
    }
}

/// The rest of a counter flush: the values that its blob holds.
pub struct CounterFlush {
    snapshot: [u64; COUNTER_SLOTS],
}

impl View for CounterFlush {
    type V = Seq<u64>;

    closed spec fn view(&self) -> Seq<u64> {
        self.snapshot@
    }
}

/// What a counter flush needs next.
pub enum CounterAction {
    /// Store `blob` under [`COUNTER_BLOB_KEY`], then call [`CounterStore::settle`].
    Store { blob: Vec<u8>, rest: CounterFlush },
    /// Nothing: the flush is over, with the number of blobs written.
    Done(usize),
}

/// What a counter flush needs next.
pub enum CounterActionView {
    Store { blob: Seq<u8>, rest: Seq<u64> },
    Done(nat),
}

impl View for CounterAction {
    type V = CounterActionView;

    open spec fn view(&self) -> CounterActionView {
        match *self {
            CounterAction::Store { blob, rest } => CounterActionView::Store {
                blob: blob@,
                rest: rest@,
            },
            CounterAction::Done(n) => CounterActionView::Done(n as nat),
        }
    }
}

impl CounterView {
    /// Every slot has a value.
    pub open spec fn wf(self) -> bool {
        self.values.len() == COUNTER_SLOTS && self.flushed.len() == COUNTER_SLOTS
    }

    /// What a flush of the counters needs: nothing if no counter changed since
    /// the last one, else to store them all.
    pub open spec fn flush_action(self) -> CounterActionView {
        if self.values == self.flushed {
            CounterActionView::Done(0)
        } else {
            CounterActionView::Store { blob: encode_counters(self.values), rest: self.values }
        }
    }

    /// The counters after their blob was stored, or failed to be.
    pub open spec fn settled(
        self,
        rest: Seq<u64>,
        outcome: Result<(), DbErrorView>,
    ) -> CounterView {
        match outcome {
            Ok(_) => CounterView { flushed: rest, ..self },
            Err(_) => self,
        }
    }

    /// The counters after `id` was incremented.
    pub open spec fn incremented(self, id: int) -> CounterView {
        CounterView { values: self.values.update(id, (self.values[id] + 1) as u64), ..self }
    }
}

impl CounterStore {
    /// Counters that go on from what is stored.
    pub fn new(stored: Option<Vec<u8>>) -> (store: Self)
        requires
            stored matches Some(blob) ==> blob_fits(blob@),
        ensures
            store@.wf(),
            store@ == (CounterView {
                values: stored_counters(stored),
                flushed: stored_counters(stored),
            }),
    {
        let loaded = Self::load_all(stored);
        CounterStore { values: loaded, flushed: loaded }
    }

    /// The counter values in a stored blob, or zeros where none is stored.
    pub fn load_all(stored: Option<Vec<u8>>) -> (values: [u64; COUNTER_SLOTS])
        requires
            stored matches Some(blob) ==> blob_fits(blob@),
        ensures
            values@ == stored_counters(stored),
    {
        let mut arr: [u64; COUNTER_SLOTS] = [0u64; COUNTER_SLOTS];
        match stored {
            None => {
                assert(arr@ =~= stored_counters(stored));
            },
            Some(bytes) => {
                let chunks: usize = bytes.len() / 8;
                let mut i: usize = 0;
                while i < chunks
                    invariant
                        i <= chunks,
                        chunks == bytes@.len() / 8,
                        chunks <= COUNTER_SLOTS,
                        forall|j: int|
                            0 <= j < COUNTER_SLOTS ==> #[trigger] arr@[j] == if j < i {
                                decode_counters(bytes@)[j]
                            } else {
                                0
                            },
                    decreases chunks - i,
                {
                    let chunk = vstd::slice::slice_subrange(
                        bytes.as_slice(),
                        8 * i,
                        8 * i + 8,
                    );
                    arr[i] = vstd::bytes::u64_from_le_bytes(chunk);
                    i = i + 1;
                }
                assert(arr@ =~= decode_counters(bytes@));
            },
        }
        arr
    }

    /// The value that the last call of [`CounterStore::next`] gave for the counter,
    /// or that it was loaded with.
    pub fn current(&self, counter_id: u8) -> (value: u64)
        ensures
            value == self@.values[counter_id as int],
    {
        self.values[counter_id as usize]
    }

    /// Increment a counter and return the new value.
    pub fn next(&mut self, counter_id: u8) -> (value: u64)
        requires
            old(self)@.values[counter_id as int] < u64::MAX,
        ensures
            final(self)@.wf(),
            final(self)@ == old(self)@.incremented(counter_id as int),
            value == old(self)@.values[counter_id as int] + 1,
    {
        let value = self.values[counter_id as usize] + 1;
        self.values[counter_id as usize] = value;
        value
    }

    /// Begin to flush the counters, and return what the flush needs first.
    /// Nothing is to be written if no counter changed since the last flush.
    pub fn flush(&self) -> (action: CounterAction)
        ensures
            action@ == self@.flush_action(),
    {
        let snapshot = self.values;
        if arrays_equal(&snapshot, &self.flushed) {
            return CounterAction::Done(0);
        }
        let mut blob: Vec<u8> = Vec::new();
        let mut i: usize = 0;
        assert(blob@ =~= encode_counters(snapshot@.take(0)));
        while i < COUNTER_SLOTS
            invariant
                i <= COUNTER_SLOTS,
                blob@ == encode_counters(snapshot@.take(i as int)),
            decreases COUNTER_SLOTS - i,
        {
            let mut bytes = vstd::bytes::u64_to_le_bytes(snapshot[i]);
            assert(snapshot@.take(i + 1) =~= snapshot@.take(i as int).push(snapshot@[i as int]));
            proof {
                lemma_encode_push(snapshot@.take(i as int), snapshot@[i as int]);
            }
            blob.append(&mut bytes);
            i = i + 1;
        }
        assert(snapshot@.take(i as int) =~= snapshot@);
        CounterAction::Store { blob, rest: CounterFlush { snapshot } }
    }

    /// End a flush after its blob was stored, or failed to be. Returns the number
    /// of blobs written.
    pub fn settle(&mut self, rest: CounterFlush, outcome: Result<(), DbError>) -> (written: Result<
        usize,
        DbError,
    >)
        ensures
            final(self)@.wf(),
            final(self)@ == old(self)@.settled(rest@, outcome_view(outcome)),
            match outcome {
                Ok(_) => written matches Ok(n) && n == 1,
                Err(e) => written matches Err(e2) && e2 == e,
            },
    {
        match outcome {
            Ok(_) => {
                self.flushed = rest.snapshot;
                Ok(1)
            },
            Err(e) => Err(e),
        }
    }
}

/// Whether two sets of counters are the same.
fn arrays_equal(a: &[u64; COUNTER_SLOTS], b: &[u64; COUNTER_SLOTS]) -> (same: bool)
    ensures
        same == (a@ == b@),
{
    let mut i: usize = 0;
    while i < COUNTER_SLOTS
        invariant
            i <= COUNTER_SLOTS,
            forall|j: int| 0 <= j < i ==> a@[j] == b@[j],
        decreases COUNTER_SLOTS - i,
    {
        if a[i] != b[i] {
            return false;
        }
        i = i + 1;
    }
    assert(a@ =~= b@);
    true
}

// ---------------------------------------------------------------------------
// What the blob holds, and what a flush does
// ---------------------------------------------------------------------------

/// The bytes `8 * i` to `8 * i + 7` of a blob are the little-endian bytes of the
/// value in slot `i`, and there are no others.
pub proof fn law_blob_format(values: Seq<u64>, i: int, j: int)
    requires
        0 <= i < values.len(),
        0 <= j < 8,
    ensures
        encode_counters(values).len() == 8 * values.len(),
        encode_counters(values)[8 * i + j] == spec_u64_to_le_bytes(values[i])[j],
{
}

/// A handle that is opened on a stored blob starts slot `i` with the number in the
/// bytes `8 * i` to `8 * i + 7`, and with zero where the blob does not reach so far
/// or none is stored. A blob of up to 256 numbers is accepted.
pub proof fn law_opened_counters(stored: Option<Vec<u8>>, i: int)
    requires
        0 <= i < 256,
    ensures
        stored_counters(stored).len() == 256,
        match stored {
            Some(blob) => {
                &&& blob@.len() >= 8 * i + 8 ==> stored_counters(stored)[i]
                    == spec_u64_from_le_bytes(blob@.subrange(8 * i, 8 * i + 8))
                &&& blob@.len() < 8 * i + 8 ==> stored_counters(stored)[i] == 0
                &&& blob_fits(blob@) <==> blob@.len() < 2056
            },
            None => stored_counters(stored)[i] == 0,
        },
{
}

/// A handle that is opened on the blob that a counter flush stored starts with the
/// counters of which the blob was made.
pub proof fn law_open_undoes_flush(counters: CounterView, blob: Vec<u8>)
    requires
        counters.wf(),
        counters.values != counters.flushed,
        counters.flush_action() matches CounterActionView::Store { blob: b, .. } && b == blob@,
    ensures
        blob_fits(blob@),
        stored_counters(Some(blob)) == counters.values,
{
    lemma_counters_survive(counters.values);
    assert(stored_counters(Some(blob)) =~= decode_counters(blob@));
}

/// A counter flush writes nothing, and reports so, exactly if no counter changed
/// since the last one; else it writes all current values.
pub proof fn law_counter_flush_is_skipped_if_unchanged(counters: CounterView)
    ensures
        counters.values == counters.flushed ==> counters.flush_action()
            == CounterActionView::Done(0),
        counters.values != counters.flushed ==> (counters.flush_action()
            matches CounterActionView::Store { blob, rest } && blob == encode_counters(
            counters.values,
        ) && rest == counters.values),
{
}

/// When the blob of a flush was stored, the counters that it holds count as stored,
/// also if counters were incremented meanwhile; those increments are kept, and the
/// next flush writes them.
pub proof fn law_settle_marks_what_was_stored(before: CounterView, now: CounterView)
    requires
        before.wf(),
        now.wf(),
        before.values != before.flushed,
    ensures
        before.flush_action() matches CounterActionView::Store { blob, rest } && {
            let after = now.settled(rest, Ok(()));
            &&& after.values == now.values
            &&& after.flushed == before.values
            &&& decode_counters(blob) == before.values
            &&& now.values != before.values ==> after.flush_action() is Store
        },
{
    lemma_counters_survive(before.values);
}

/// Incrementing a counter adds one to its value, and changes neither another value
/// nor what counts as stored.
pub proof fn law_increment(counters: CounterView, id: int)
    requires
        counters.wf(),
        0 <= id < 256,
        counters.values[id] < u64::MAX,
    ensures
        counters.incremented(id).flushed == counters.flushed,
        counters.incremented(id).values.len() == 256,
        forall|j: int|
            0 <= j < 256 ==> #[trigger] counters.incremented(id).values[j] == if j == id {
                counters.values[j] + 1
            } else {
                counters.values[j] as int
            },
{
}

/// The names and numbers that the database files and the host application rely on.
pub proof fn law_fixed_values()
    ensures
        COUNTER_BLOB@ == "counter_blob"@,
        COUNTER_BLOB_KEY == 0,
        COUNTER_SLOTS == 256,
        BUFFER_FLUSH_SECS == 10,
        BUFFER_MAX_ENTRIES == 10_000,
{
}

} // verus!
