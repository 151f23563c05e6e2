//! A fixed-capacity ring buffer: once full, each push overwrites the oldest item.
//!
//! The logical content is the sequence of stored items from oldest to newest;
//! it always holds the most recent `min(pushed, N)` items.

use vstd::prelude::*;

verus! {

/// The content after pushing `x` onto a buffer of capacity `n` holding `s`.
pub open spec fn ring_push<T>(s: Seq<T>, x: T, n: nat) -> Seq<T> {
    if s.len() < n {
        s.push(x)
    } else {
        s.drop_first().push(x)
    }
}

/// The content after pushing every item of `xs` in order.
pub open spec fn ring_push_all<T>(s: Seq<T>, xs: Seq<T>, n: nat) -> Seq<T>
    decreases xs.len(),
{
    if xs.len() == 0 {
        s
    } else {
        ring_push(ring_push_all(s, xs.drop_last(), n), xs.last(), n)
    }
}

/// The last `min(len, n)` items of a sequence.
pub open spec fn latest<T>(s: Seq<T>, n: nat) -> Seq<T> {
    if s.len() <= n {
        s
    } else {
        s.subrange(s.len() - n, s.len() as int)
    }
}

/// Ring buffer law: pushing items onto a buffer of capacity `n > 0` that holds
/// `s` (at most `n` items) leaves exactly the latest `n` items of `s + xs`,
/// oldest first. In particular a buffer filled from empty holds the latest
/// `n` items pushed.
pub proof fn lemma_ring_holds_latest<T>(s: Seq<T>, xs: Seq<T>, n: nat)
    requires
        n > 0,
        s.len() <= n,
    ensures
        ring_push_all(s, xs, n) == latest(s + xs, n),
    decreases xs.len(),
{
    if xs.len() > 0 {
        lemma_ring_holds_latest(s, xs.drop_last(), n);
        let prev = s + xs.drop_last();
        let all = s + xs;
        assert(all =~= prev.push(xs.last()));
        let p = latest(prev, n);
        if prev.len() < n {
            assert(ring_push(p, xs.last(), n) =~= latest(all, n));
        } else {
            assert(ring_push(p, xs.last(), n) =~= latest(all, n));
        }
    }
}

/// A fixed-size ring buffer of capacity `N`.
///
/// `cursor` is the pair (next write slot, number of stored items); the two
/// change together.
#[derive(Debug)]
pub struct StaticRingBuffer<T, const N: usize> {
    data: Vec<Option<T>>,
    cursor: (usize, usize),
}

impl<T, const N: usize> StaticRingBuffer<T, N> {
    /// Physical slot of the `i`-th oldest item when the next write slot is
    /// `w` and `c` items are stored.
    closed spec fn slot_at(w: int, c: int, i: int) -> int {
        let start = if c == N {
            w
        } else {
            0
        };
        if start + i < N {
            start + i
        } else {
            start + i - N
        }
    }

    /// Physical slot of the `i`-th oldest item.
    closed spec fn slot(&self, i: int) -> int {
        Self::slot_at(self.cursor.0 as int, self.cursor.1 as int, i)
    }

    /// The internal invariant of the buffer.
    #[verifier::type_invariant]
    closed spec fn inv(&self) -> bool {
        &&& self.data@.len() == N
        &&& self.cursor.1 <= N
        &&& N > 0 ==> self.cursor.0 < N
        &&& N == 0 ==> self.cursor.0 == 0
        &&& self.cursor.1 < N ==> self.cursor.0 == self.cursor.1
        &&& forall|i: int| 0 <= i < self.cursor.1 ==> (#[trigger] self.data@[self.slot(i)]) is Some
    }

    /// The stored items from oldest to newest.
    pub closed spec fn view(&self) -> Seq<T> {
        Seq::new(self.cursor.1 as nat, |i: int| self.data@[self.slot(i)]->Some_0)
    }

    /// An empty buffer.
    pub fn new() -> (r: Self)
        ensures
            r.view() == Seq::<T>::empty(),
    {
        let data = Self::empty_slots();
        let r = Self { data, cursor: (0, 0) };
        assert(r.view() =~= Seq::<T>::empty());
        r
    }

    fn empty_slots() -> (r: Vec<Option<T>>)
        ensures
            r@.len() == N,
    {
        let mut data: Vec<Option<T>> = Vec::new();
        let mut i: usize = 0;
        while i < N
            invariant
                i <= N,
                data@.len() == i,
            decreases N - i,
        {
            data.push(None);
            i = i + 1;
        }
        data
    }

    /// Appends an item; when full the oldest item is overwritten.
    /// The capacity must be positive.
    pub fn push(&mut self, item: T)
        requires
            N > 0,
        ensures
            final(self).view() == ring_push(old(self).view(), item, N as nat),
    {
        proof {
            use_type_invariant(&*self);
        }
        let ghost old_view = self.view();
        let ghost old_data = self.data@;
        let (w, c) = self.cursor;
        proof {
            assert forall|i: int| 0 <= i < c implies (#[trigger] old_data[Self::slot_at(
                w as int,
                c as int,
                i,
            )]) is Some by {
                assert(self.data@[self.slot(i)] is Some);
            }
            assert forall|i: int| 0 <= i < c implies (#[trigger] old_data.update(
                w as int,
                Some(item),
            )[Self::slot_at(w as int, c as int, i)]) is Some by {
                assert(old_data[Self::slot_at(w as int, c as int, i)] is Some);
            }
        }
        // The slot is written through `index_set`, whose contract fixes the new
        // value at once, so the invariant is seen to hold right after the write.
        vstd::std_specs::core::index_set(&mut self.data, w, Some(item));
        let nw = if w + 1 == N {
            0
        } else {
            w + 1
        };
        let nc = if c < N {
            c + 1
        } else {
            c
        };
        proof {
            let d = self.data@;
            assert(d == old_data.update(w as int, Some(item)));
            if c < N {
                assert forall|i: int| 0 <= i < nc implies (#[trigger] d[Self::slot_at(
                    nw as int,
                    nc as int,
                    i,
                )]) is Some by {
                    assert(Self::slot_at(nw as int, nc as int, i) == i);
                    if i < c {
                        assert(Self::slot_at(w as int, c as int, i) == i);
                    }
                }
            } else {
                assert forall|i: int| 0 <= i < nc implies (#[trigger] d[Self::slot_at(
                    nw as int,
                    nc as int,
                    i,
                )]) is Some by {
                    if i < N - 1 {
                        assert(Self::slot_at(nw as int, nc as int, i) == Self::slot_at(
                            w as int,
                            c as int,
                            i + 1,
                        ));
                    } else {
                        assert(Self::slot_at(nw as int, nc as int, i) == w);
                    }
                }
            }
        }
        self.cursor = (nw, nc);
        proof {
            if c < N {
                assert(self.view() =~= old_view.push(item)) by {
                    assert forall|i: int| 0 <= i < self.cursor.1 implies self.view()[i]
                        == old_view.push(item)[i] by {
                        assert(self.slot(i) == i);
                        if i < c {
                            assert(Self::slot_at(w as int, c as int, i) == i);
                        }
                    }
                }
            } else {
                assert(self.view() =~= old_view.drop_first().push(item)) by {
                    assert forall|i: int| 0 <= i < self.cursor.1 implies self.view()[i]
                        == old_view.drop_first().push(item)[i] by {
                        if i < N - 1 {
                            assert(self.slot(i) == Self::slot_at(w as int, c as int, i + 1));
                        } else {
                            assert(self.slot(i) == w);
                        }
                    }
                }
            }
        }
    }

    /// Removes every item.
    pub fn clear(&mut self)
        ensures
            final(self).view() == Seq::<T>::empty(),
    {
        proof {
            use_type_invariant(&*self);
        }
        self.cursor = (0, 0);
        self.data = Self::empty_slots();
        assert(self.view() =~= Seq::<T>::empty());
    }

    /// Number of stored items.
    pub fn len(&self) -> (r: usize)
        ensures
            r == self.view().len(),
            r <= N,
    {
        proof {
            use_type_invariant(self);
        }
        self.cursor.1
    }

    /// Whether no item is stored.
    pub fn is_empty(&self) -> (r: bool)
        ensures
            r == (self.view().len() == 0),
    {
        self.cursor.1 == 0
    }

    /// Whether the buffer holds `N` items.
    pub fn is_full(&self) -> (r: bool)
        ensures
            r == (self.view().len() == N),
    {
        self.cursor.1 == N
    }

    /// The items from oldest to newest (same as [`Self::iter_oldest`]).
    pub fn iter(&self) -> (r: Vec<&T>)
        ensures
            r@.len() == self.view().len(),
            forall|i: int| 0 <= i < r@.len() ==> *r@[i] == self.view()[i],
    {
        self.iter_oldest()
    }

    /// Reference to the `i`-th oldest item.
    fn get(&self, i: usize) -> (r: &T)
        requires
            i < self.view().len(),
        ensures
            *r == self.view()[i as int],
    {
        proof {
            use_type_invariant(self);
        }
        let (w, c) = self.cursor;
        let start = if c == N {
            w
        } else {
            0
        };
        let idx = if i < N - start {
            start + i
        } else {
            i - (N - start)
        };
        assert(idx == self.slot(i as int));
        match &self.data[idx] {
            Some(x) => x,
            None => {
                proof {
                    assert(self.data@[self.slot(i as int)] is Some);
                }
                unreached()
            },
        }
    }

    /// The items from oldest to newest.
    pub fn iter_oldest(&self) -> (r: Vec<&T>)
        ensures
            r@.len() == self.view().len(),
            forall|i: int| 0 <= i < r@.len() ==> *r@[i] == self.view()[i],
    {
        let n = self.cursor.1;
        let mut out: Vec<&T> = Vec::new();
        let mut i: usize = 0;
        while i < n
            invariant
                n == self.view().len(),
                i <= n,
                out@.len() == i,
                forall|j: int| 0 <= j < i ==> *out@[j] == self.view()[j],
            decreases n - i,
        {
            out.push(self.get(i));
            i = i + 1;
        }
        out
    }

    /// The items from newest to oldest.
    pub fn iter_newest(&self) -> (r: Vec<&T>)
        ensures
            r@.len() == self.view().len(),
            forall|i: int| 0 <= i < r@.len() ==> *r@[i] == self.view().reverse()[i],
    {
        let n = self.cursor.1;
        let mut out: Vec<&T> = Vec::new();
        let mut k: usize = 0;
        while k < n
            invariant
                n == self.view().len(),
                k <= n,
                out@.len() == k,
                forall|j: int| 0 <= j < k ==> *out@[j] == self.view().reverse()[j],
            decreases n - k,
        {
            out.push(self.get(n - 1 - k));
            k = k + 1;
        }
        out
    }
}

impl<T, const N: usize> Default for StaticRingBuffer<T, N> {
    /// An empty buffer, as [`StaticRingBuffer::new`] gives it.
    fn default() -> (r: Self)
        ensures
            r.view() == Seq::<T>::empty(),
    {
        Self::new()
    }
}

} // verus!
