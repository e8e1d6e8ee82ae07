//! A fixed-capacity ring of retained surface handles.
//!
//! The producer pushes one entry per decoded frame: a surface id that a
//! reader in another process can look up, a timestamp, and the handle whose
//! reference the ring holds for as long as the entry stays in its slot. An
//! entry leaves its slot only when a later push overwrites it, `RING_SIZE`
//! pushes afterwards; the handle it held is then handed back to be released.
//!
//! A ring has one owner. Sharing it between threads, and the retain and
//! release calls that its handles stand for, are the owner's to arrange.

use vstd::prelude::*;

verus! {

/// Number of slots in the ring.
pub const RING_SIZE: usize = 8;

/// The handle value that stands for "no surface".
pub const NULL_SURFACE: usize = 0;

/// Ring buffer of surface ids for cross-process sharing.
///
/// Holds, per slot, the id and timestamp last written there and the handle
/// retained on behalf of readers.
pub struct SurfaceRing {
    write_index: u64,
    surface_ids: [u32; RING_SIZE],
    timestamps: [u64; RING_SIZE],
    retained_surfaces: [usize; RING_SIZE],
}

/// Mathematical content of a [`SurfaceRing`].
pub struct RingView {
    /// Number of pushes so far, modulo 2^64.
    pub write_index: u64,
    /// Surface id per slot.
    pub surface_ids: Seq<u32>,
    /// Timestamp per slot, in milliseconds.
    pub timestamps: Seq<u64>,
    /// Handle retained per slot; `NULL_SURFACE` where none is.
    pub retained: Seq<usize>,
}

/// The retained (non-null) handles of a slot sequence, in slot order.
pub open spec fn retained_handles(handles: Seq<usize>) -> Seq<usize>
    decreases handles.len(),
{
    if handles.len() == 0 {
        Seq::empty()
    } else if handles.last() != NULL_SURFACE {
        retained_handles(handles.drop_last()).push(handles.last())
    } else {
        retained_handles(handles.drop_last())
    }
}

impl RingView {
    /// The ring before any push.
    pub open spec fn empty() -> RingView {
        RingView {
            write_index: 0,
            surface_ids: Seq::new(RING_SIZE as nat, |i: int| 0u32),
            timestamps: Seq::new(RING_SIZE as nat, |i: int| 0u64),
            retained: Seq::new(RING_SIZE as nat, |i: int| NULL_SURFACE),
        }
    }

    /// Every per-slot sequence has one element per slot.
    pub open spec fn wf(self) -> bool {
        &&& self.surface_ids.len() == RING_SIZE
        &&& self.timestamps.len() == RING_SIZE
        &&& self.retained.len() == RING_SIZE
    }

    /// The slot that the next push writes.
    pub open spec fn write_slot(self) -> int {
        self.write_index as int % RING_SIZE as int
    }

    /// The slot that the last push wrote.
    pub open spec fn latest_slot(self) -> int {
        (self.write_index - 1) % RING_SIZE as int
    }

    /// The ring after one push: the entry stands in the write slot and the
    /// counter has moved on by one.
    pub open spec fn push(self, surface_id: u32, timestamp_ms: u64, surface: usize) -> RingView {
        RingView {
            write_index: if self.write_index == u64::MAX {
                0
            } else {
                (self.write_index + 1) as u64
            },
            surface_ids: self.surface_ids.update(self.write_slot(), surface_id),
            timestamps: self.timestamps.update(self.write_slot(), timestamp_ms),
            retained: self.retained.update(self.write_slot(), surface),
        }
    }

    /// The handle that the next push displaces.
    pub open spec fn displaced(self) -> usize {
        self.retained[self.write_slot()]
    }

    /// The entry a reader sees: the one written last, or none where nothing
    /// was written yet.
    pub open spec fn latest(self) -> Option<(u32, u64)> {
        if self.write_index == 0 {
            None
        } else {
            Some((self.surface_ids[self.latest_slot()], self.timestamps[self.latest_slot()]))
        }
    }

    /// How many handles the ring holds a reference to.
    pub open spec fn retained_count(self) -> nat {
        retained_handles(self.retained).len()
    }

    /// The ring after teardown: entries and counter as they were, no handle
    /// retained.
    pub open spec fn released(self) -> RingView {
        RingView { retained: Seq::new(RING_SIZE as nat, |i: int| NULL_SURFACE), ..self }
    }

    /// The ring after a run of pushes, in order.
    pub open spec fn push_all(self, entries: Seq<(u32, u64, usize)>) -> RingView
        decreases entries.len(),
    {
        if entries.len() == 0 {
            self
        } else {
            self.push_all(entries.drop_last()).push(
                entries.last().0,
                entries.last().1,
                entries.last().2,
            )
        }
    }
}

impl View for SurfaceRing {
    type V = RingView;

    closed spec fn view(&self) -> RingView {
        RingView {
            write_index: self.write_index,
            surface_ids: self.surface_ids@,
            timestamps: self.timestamps@,
            retained: self.retained_surfaces@,
        }
    }
}

impl SurfaceRing {
    /// An empty ring: no push yet, nothing retained.
    pub fn new() -> (ring: SurfaceRing)
        ensures
            ring@ == RingView::empty(),
            ring@.wf(),
    {
        let ring = SurfaceRing {
            write_index: 0,
            surface_ids: [0u32; RING_SIZE],
            timestamps: [0u64; RING_SIZE],
            retained_surfaces: [NULL_SURFACE; RING_SIZE],
        };
        assert(ring@.surface_ids =~= RingView::empty().surface_ids);
        assert(ring@.timestamps =~= RingView::empty().timestamps);
        assert(ring@.retained =~= RingView::empty().retained);
        ring
    }

    /// Push a new decoded frame's surface into the ring.
    ///
    /// The caller has retained `surface` (or passes `NULL_SURFACE`). The ring
    /// installs it in the write slot, then hands back the handle that stood
    /// there, which the caller releases unless it is null: at no point does a
    /// slot hold a handle that was already released.
    pub fn push(&mut self, surface_id: u32, timestamp_ms: u64, surface: usize) -> (displaced: usize)
        ensures
            old(self)@.wf(),
            final(self)@.wf(),
            final(self)@ == old(self)@.push(surface_id, timestamp_ms, surface),
            displaced == old(self)@.displaced(),
    {
        let idx: usize = (self.write_index % (RING_SIZE as u64)) as usize;
        let displaced: usize = self.retained_surfaces[idx];
        self.retained_surfaces[idx] = surface;
        self.surface_ids[idx] = surface_id;
        self.timestamps[idx] = timestamp_ms;
        self.write_index = self.write_index.wrapping_add(1);
        displaced
    }

    /// Read the latest surface id and timestamp.
    /// Returns `None` if no frames have been written yet.
    pub fn latest(&self) -> (entry: Option<(u32, u64)>)
        ensures
            self@.wf(),
            entry == self@.latest(),
    {
        if self.write_index == 0 {
            return None;
        }
        let idx: usize = ((self.write_index - 1) % (RING_SIZE as u64)) as usize;
        let surface_id: u32 = self.surface_ids[idx];
        let timestamp: u64 = self.timestamps[idx];
        Some((surface_id, timestamp))
    }

    /// Get the current write count (for detecting new frames).
    pub fn write_count(&self) -> (count: u64)
        ensures
            self@.wf(),
            count == self@.write_index,
    {
        self.write_index
    }

    /// Teardown: gives up every handle the ring still retains and returns
    /// them, each once, in slot order, for the caller to release.
    pub fn release_all(&mut self) -> (handles: Vec<usize>)
        ensures
            old(self)@.wf(),
            final(self)@.wf(),
            handles@ == retained_handles(old(self)@.retained),
            final(self)@ == old(self)@.released(),
            final(self)@.retained_count() == 0,
    {
        let mut handles: Vec<usize> = Vec::new();
        let ghost before = self@.retained;
        let mut i: usize = 0;
        while i < RING_SIZE
            invariant
                i <= RING_SIZE,
                before.len() == RING_SIZE,
                self.write_index == old(self).write_index,
                self.surface_ids == old(self).surface_ids,
                self.timestamps == old(self).timestamps,
                handles@ == retained_handles(before.take(i as int)),
                forall|j: int| 0 <= j < i ==> self.retained_surfaces@[j] == NULL_SURFACE,
                forall|j: int| i <= j < RING_SIZE ==> self.retained_surfaces@[j] == before[j],
            decreases RING_SIZE - i,
        {
            let handle: usize = self.retained_surfaces[i];
            assert(before.take(i + 1).drop_last() =~= before.take(i as int));
            if handle != NULL_SURFACE {
                handles.push(handle);
                self.retained_surfaces[i] = NULL_SURFACE;
            }
            i = i + 1;
        }
        proof {
            assert(before.take(RING_SIZE as int) =~= before);
            assert(self@.retained =~= old(self)@.released().retained);
            lemma_nothing_retained(self@.retained);
        }
        handles
    }
}

/// A slot sequence of null handles retains nothing.
pub proof fn lemma_nothing_retained(handles: Seq<usize>)
    requires
        forall|i: int| 0 <= i < handles.len() ==> handles[i] == NULL_SURFACE,
    ensures
        retained_handles(handles) == Seq::<usize>::empty(),
    decreases handles.len(),
{
    if handles.len() > 0 {
        lemma_nothing_retained(handles.drop_last());
    }
}

/// Where the first `filled` slots hold a handle and the others none, exactly
/// `filled` handles are retained.
pub proof fn lemma_retained_prefix(handles: Seq<usize>, filled: nat)
    requires
        filled <= handles.len(),
        forall|i: int| 0 <= i < filled ==> handles[i] != NULL_SURFACE,
        forall|i: int| filled <= i < handles.len() ==> handles[i] == NULL_SURFACE,
    ensures
        retained_handles(handles).len() == filled,
    decreases handles.len(),
{
    if handles.len() > 0 {
        if filled == handles.len() {
            lemma_retained_prefix(handles.drop_last(), (filled - 1) as nat);
        } else {
            lemma_retained_prefix(handles.drop_last(), filled);
        }
    }
}

/// The state of a ring that started empty, after a run of pushes: the counter
/// equals the number of pushes, each of the last `RING_SIZE` entries stands in
/// the slot of its index, and slots never written are as they started.
pub proof fn lemma_ring_after_pushes(entries: Seq<(u32, u64, usize)>)
    requires
        entries.len() <= u64::MAX,
    ensures
        ({
            let ring = RingView::empty().push_all(entries);
            &&& ring.wf()
            &&& ring.write_index == entries.len()
            &&& forall|i: int|
                0 <= i < entries.len() && entries.len() - i <= RING_SIZE ==> {
                    &&& ring.surface_ids[i % RING_SIZE as int] == (#[trigger] entries[i]).0
                    &&& ring.timestamps[i % RING_SIZE as int] == entries[i].1
                    &&& ring.retained[i % RING_SIZE as int] == entries[i].2
                }
            &&& forall|j: int|
                entries.len() <= j < RING_SIZE ==> #[trigger] ring.retained[j] == NULL_SURFACE
        }),
    decreases entries.len(),
{
    if entries.len() > 0 {
        lemma_ring_after_pushes(entries.drop_last());
        let before = RingView::empty().push_all(entries.drop_last());
        let ring = RingView::empty().push_all(entries);
        let k = entries.len() - 1;
        assert(before.write_slot() == k % RING_SIZE as int);
        assert forall|i: int| 0 <= i < entries.len() && entries.len() - i <= RING_SIZE implies {
            &&& ring.surface_ids[i % RING_SIZE as int] == (#[trigger] entries[i]).0
            &&& ring.timestamps[i % RING_SIZE as int] == entries[i].1
            &&& ring.retained[i % RING_SIZE as int] == entries[i].2
        } by {
            if i < k {
                assert(entries.drop_last()[i] == entries[i]);
                assert(i % RING_SIZE as int != k % RING_SIZE as int);
            }
        }
    }
}

/// Before any push a reader sees nothing, and nothing is retained.
pub proof fn lemma_empty_ring()
    ensures
        RingView::empty().latest() is None,
        RingView::empty().retained_count() == 0,
{
    lemma_nothing_retained(RingView::empty().retained);
}

/// After a run of pushes into an empty ring, a reader sees the entry pushed
/// last: its id and its timestamp.
pub proof fn lemma_latest_is_last_pushed(entries: Seq<(u32, u64, usize)>)
    requires
        0 < entries.len() <= u64::MAX,
    ensures
        RingView::empty().push_all(entries).latest() == Some(
            (entries.last().0, entries.last().1),
        ),
{
    lemma_ring_after_pushes(entries);
    let k = entries.len() - 1;
    assert(entries[k] == entries.last());
}

/// After more pushes than the ring has slots, each with a handle, exactly
/// `RING_SIZE` handles are retained: those of the last `RING_SIZE` pushes.
/// With fewer pushes, one handle is retained per push.
pub proof fn lemma_retained_after_pushes(entries: Seq<(u32, u64, usize)>)
    requires
        entries.len() <= u64::MAX,
        forall|i: int| 0 <= i < entries.len() ==> (#[trigger] entries[i]).2 != NULL_SURFACE,
    ensures
        entries.len() >= RING_SIZE ==> RingView::empty().push_all(entries).retained_count()
            == RING_SIZE,
        entries.len() < RING_SIZE ==> RingView::empty().push_all(entries).retained_count()
            == entries.len(),
        forall|i: int|
            0 <= i < entries.len() && entries.len() - i <= RING_SIZE ==> RingView::empty().push_all(
                entries,
            ).retained[i % RING_SIZE as int] == (#[trigger] entries[i]).2,
{
    lemma_ring_after_pushes(entries);
    let ring = RingView::empty().push_all(entries);
    if entries.len() >= RING_SIZE {
        assert forall|j: int| 0 <= j < RING_SIZE implies ring.retained[j] != NULL_SURFACE by {
            let base = entries.len() - RING_SIZE;
            let i = if base % RING_SIZE as int <= j {
                base - base % RING_SIZE as int + j
            } else {
                base - base % RING_SIZE as int + RING_SIZE + j
            };
            assert(i % RING_SIZE as int == j);
            assert(entries[i].2 != NULL_SURFACE);
        }
        lemma_retained_prefix(ring.retained, RING_SIZE as nat);
    } else {
        assert forall|j: int| 0 <= j < entries.len() implies ring.retained[j] != NULL_SURFACE by {
            assert(j % RING_SIZE as int == j);
            assert(entries[j].2 != NULL_SURFACE);
        }
        lemma_retained_prefix(ring.retained, entries.len());
    }
}

/// A pushed handle stays in its slot through the next `RING_SIZE - 1` pushes:
/// none of them displaces it. It is the push after those that hands it back.
pub proof fn lemma_handle_survives_pushes(
    ring: RingView,
    surface_id: u32,
    timestamp_ms: u64,
    surface: usize,
    later: Seq<(u32, u64, usize)>,
)
    requires
        ring.wf(),
        later.len() < RING_SIZE,
        ring.write_index + later.len() < u64::MAX,
    ensures
        ({
            let after = ring.push(surface_id, timestamp_ms, surface).push_all(later);
            &&& after.wf()
            &&& after.write_index == ring.write_index + 1 + later.len()
            &&& after.retained[ring.write_slot()] == surface
            &&& after.surface_ids[ring.write_slot()] == surface_id
            &&& after.timestamps[ring.write_slot()] == timestamp_ms
            &&& later.len() == RING_SIZE - 1 ==> after.displaced() == surface
        }),
    decreases later.len(),
{
    if later.len() > 0 {
        lemma_handle_survives_pushes(ring, surface_id, timestamp_ms, surface, later.drop_last());
    }
}

} // verus!
