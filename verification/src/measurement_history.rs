//! History of decoded measurements for the GUI: the latest fifty, oldest first.

use vstd::prelude::*;

use crate::frame::Measurement;
use crate::ring_buffer::{latest, lemma_ring_holds_latest, ring_push, ring_push_all, StaticRingBuffer};

verus! {

/// Number of measurements the history keeps.
pub const HISTORY_SIZE: usize = 50;

/// The latest [`HISTORY_SIZE`] measurements, backed by a ring buffer.
pub struct MeasurementHistory {
    inner: StaticRingBuffer<Measurement, HISTORY_SIZE>,
}

/// The content of a new history after `add` of each measurement of `ms`, in order.
pub open spec fn history_after(ms: Seq<Measurement>) -> Seq<Measurement> {
    ring_push_all(Seq::empty(), ms, HISTORY_SIZE as nat)
}

impl MeasurementHistory {
    /// The kept measurements from oldest to newest.
    pub closed spec fn view(&self) -> Seq<Measurement> {
        self.inner.view()
    }

    /// An empty history.
    pub fn new() -> (r: Self)
        ensures
            r.view() == Seq::<Measurement>::empty(),
    {
        Self { inner: StaticRingBuffer::new() }
    }

    /// Records a measurement; beyond fifty the oldest one is dropped.
    pub fn add(&mut self, meas: Measurement)
        ensures
            final(self).view() == ring_push(old(self).view(), meas, HISTORY_SIZE as nat),
    {
        self.inner.push(meas);
    }

    /// Forgets every measurement.
    pub fn clear(&mut self)
        ensures
            final(self).view() == Seq::<Measurement>::empty(),
    {
        self.inner.clear();
    }

    /// Whether no measurement is kept.
    pub fn is_empty(&self) -> (r: bool)
        ensures
            r == (self.view().len() == 0),
    {
        self.inner.is_empty()
    }

    /// Whether fifty measurements are kept.
    pub fn is_full(&self) -> (r: bool)
        ensures
            r == (self.view().len() == HISTORY_SIZE),
    {
        self.inner.is_full()
    }

    /// The kept measurements, newest first.
    pub fn iter_newest(&self) -> (r: Vec<&Measurement>)
        ensures
            r@.len() == self.view().len(),
            forall|i: int| 0 <= i < r@.len() ==> *r@[i] == self.view().reverse()[i],
    {
        self.inner.iter_newest()
    }

    /// The kept measurements, oldest first.
    pub fn iter_oldest(&self) -> (r: Vec<&Measurement>)
        ensures
            r@.len() == self.view().len(),
            forall|i: int| 0 <= i < r@.len() ==> *r@[i] == self.view()[i],
    {
        self.inner.iter_oldest()
    }

    /// One more `add`: if a history holds `history_after(ms)`, then after
    /// `add(m)` it holds `history_after(ms.push(m))`. With `new` (empty, which
    /// is `history_after` of no measurements) this gives, by induction over
    /// the calls, that a new history after `add` of `m_1, ..., m_k` holds
    /// `history_after([m_1, ..., m_k])`.
    pub proof fn lemma_add_extends(ms: Seq<Measurement>, m: Measurement)
        ensures
            history_after(Seq::empty()) == Seq::<Measurement>::empty(),
            history_after(ms.push(m)) == ring_push(history_after(ms), m, HISTORY_SIZE as nat),
    {
        assert(ms.push(m).drop_last() =~= ms);
    }

    /// History law: a new history (empty, as `new` gives it) after `add` of
    /// `m_1, ..., m_k` in order holds exactly the latest `min(k, 50)` of them,
    /// oldest first; it is empty exactly when `k == 0` and full exactly when
    /// `k >= 50`. (`add` changes the content as one `ring_push`, so the content
    /// after the `k` calls is `history_after` of the measurements added.)
    pub proof fn lemma_history_holds_latest(ms: Seq<Measurement>)
        ensures
            history_after(ms) == latest(ms, HISTORY_SIZE as nat),
            history_after(ms).len() == if ms.len() < HISTORY_SIZE {
                ms.len()
            } else {
                HISTORY_SIZE as nat
            },
            (history_after(ms).len() == 0) == (ms.len() == 0),
            (history_after(ms).len() == HISTORY_SIZE) == (ms.len() >= HISTORY_SIZE),
            forall|j: int|
                0 <= j < history_after(ms).len() ==> #[trigger] history_after(ms)[j] == ms[ms.len()
                    - history_after(ms).len() + j],
    {
        lemma_ring_holds_latest(Seq::<Measurement>::empty(), ms, HISTORY_SIZE as nat);
        assert(Seq::<Measurement>::empty() + ms =~= ms);
    }
}

impl Default for MeasurementHistory {
    fn default() -> (r: Self)
        ensures
            r.view() == Seq::<Measurement>::empty(),
    {
        Self::new()
    }
}

} // verus!
