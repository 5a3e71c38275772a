//! The filter: a ring of `N` slots and the median of the samples it holds.
//!
//! A filter is seen in two ways. Its state is what lies in memory: the
//! slots, the write index and the count of samples held. Its view, `f@`, is
//! the window: the samples held, oldest first. What an operation does is
//! stated of both.

use crate::median::{arranges, is_median, is_middle, median_defined, middle_defined};
use crate::sample::{
    exact_arithmetic, exact_comparison, is_default, is_zero, lemma_sortable_rearranged, mean,
    sortable,
};
use crate::sort::{exchange_sorted, lemma_exchange_sorted_len, sort_prefix};
use crate::window::{
    count_after_write, lemma_window_fills_first_slots, lemma_window_slot, lemma_write_slides,
    live_window, next_slot, ring_inv, slide,
};
use core::ops::{Add, Div};
use vstd::prelude::*;

verus! {

/// A moving median filter. It holds the last `N` samples that were added and
/// reports their median; it never allocates.
pub struct MovingMedian<T, const N: usize> {
    /// The ring. Slots that hold no live sample keep whatever was there.
    buffer: [T; N],
    /// The slot that the next sample goes to.
    index: usize,
    /// How many samples are held, `N` at most.
    count: usize,
}

impl<T, const N: usize> View for MovingMedian<T, N> {
    type V = Seq<T>;

    /// The window: the samples held, oldest first.
    open spec fn view(&self) -> Seq<T> {
        live_window(self.slots(), self.write_index(), self.filled_count())
    }
}

impl<T, const N: usize> MovingMedian<T, N> {
    /// The `N` slots of the ring, as they lie in memory.
    pub closed spec fn slots(&self) -> Seq<T> {
        self.buffer@
    }

    /// The slot that the next sample is written to.
    pub closed spec fn write_index(&self) -> nat {
        self.index as nat
    }

    /// The number of samples held.
    pub closed spec fn filled_count(&self) -> nat {
        self.count as nat
    }

    /// What holds of every filter: it has at least one slot, the write index
    /// is a slot, no more than `N` samples are held, and until the ring is
    /// full it is filled from slot 0 on.
    pub open spec fn wf(&self) -> bool {
        &&& self.slots().len() == N
        &&& ring_inv(N as nat, self.write_index(), self.filled_count())
    }

    /// The slots that hold the live samples, as they lie in memory: the
    /// first `filled_count` of them. Until the ring is full they are the
    /// window; from then on they are the window turned round.
    pub open spec fn live_slots(&self) -> Seq<T> {
        self.slots().subrange(0, self.filled_count() as int)
    }

    /// The filter is `before` with the sample `v` added: `v` was written to
    /// the slot at the write index, the write index moved on by one, round
    /// the ring, and the count rose by one unless the ring was full.
    pub open spec fn is_after_adding(&self, before: Self, v: T) -> bool {
        &&& self.slots() == before.slots().update(before.write_index() as int, v)
        &&& self.write_index() == next_slot(before.write_index(), N as nat)
        &&& self.filled_count() == count_after_write(before.filled_count(), N as nat)
    }

    /// The two filters are in the same state, but for what lies in slots
    /// that hold no live sample.
    pub open spec fn same_state(&self, other: Self) -> bool {
        &&& self.write_index() == other.write_index()
        &&& self.filled_count() == other.filled_count()
        &&& self.live_slots() == other.live_slots()
    }
}

impl<T: Default, const N: usize> MovingMedian<T, N> {
    /// The state of a new filter: no sample is held, the first one goes to
    /// slot 0, and every slot has the default value of `T`.
    pub open spec fn is_fresh(&self) -> bool {
        &&& self.wf()
        &&& self.write_index() == 0
        &&& self.filled_count() == 0
        &&& forall|i: int| 0 <= i < N ==> is_default(#[trigger] self.slots()[i])
    }
}

impl<T, const N: usize> MovingMedian<T, N> where
    T: PartialOrd + Add<Output = T> + Div<Output = T> + From<u8>,
 {
    /// `o` is a way the sorted copy of the live slots may come out. It is
    /// always an arrangement of the window: the same samples, in ascending
    /// order where they can be sorted. Where the comparison of `T` is exact,
    /// it is what the sort makes of the live slots.
    pub open spec fn may_sort_to(&self, o: Seq<T>) -> bool {
        &&& arranges(o, self@)
        &&& exact_comparison::<T>() ==> o == exchange_sorted(self.live_slots())
    }

    /// `m` is a value that [`MovingMedian::median`] may report: the middle
    /// of a sorted copy of the live slots.
    pub open spec fn reports(&self, m: T) -> bool {
        exists|o: Seq<T>| #[trigger] self.may_sort_to(o) && is_middle(o, m)
    }

    /// The filter can report a median: whatever the sorted copy of the live
    /// slots comes out as, its middle can be computed.
    pub open spec fn can_report(&self) -> bool {
        forall|o: Seq<T>| #[trigger] self.may_sort_to(o) ==> middle_defined(o)
    }
}

impl<T, const N: usize> MovingMedian<T, N> where
    T: Copy + PartialOrd + Add<Output = T> + Div<Output = T> + From<u8> + Default,
 {
    /// A filter that holds no sample: every slot has the default value of `T`
    /// and the first sample goes to slot 0.
    ///
    /// A filter needs at least one slot.
    pub fn new() -> (filter: Self)
        requires
            N > 0,
        ensures
            filter.is_fresh(),
            filter@ == Seq::<T>::empty(),
    {
        Self { buffer: [T::default();N], index: 0, count: 0 }
    }

    /// Adds a sample. It is written to the slot at the write index, which
    /// moves on by one and wraps after the last slot. The window slides:
    /// the sample comes last in it, and once `N` samples are held the oldest
    /// of them leaves.
    pub fn add_value(&mut self, value: T)
        requires
            old(self).wf(),
        ensures
            final(self).wf(),
            final(self).is_after_adding(*old(self), value),
            final(self)@ == slide(old(self)@, value, N as nat),
    {
        proof {
            lemma_write_slides(self.slots(), self.write_index(), self.filled_count(), value);
        }
        self.buffer[self.index] = value;
        self.index = (self.index + 1) % N;
        if self.count < N {
            self.count += 1;
        }
    }

    /// The median of the samples held: the middle one where their number is
    /// odd, the mean of the two in the middle where it is even, and the zero
    /// of `T` where there is none. The filter is left as it was.
    ///
    /// The median is the middle of a sorted copy of the live slots. Where
    /// the samples can be sorted, that is the middle of them in ascending
    /// order. In any case it is the middle of them in some order: slots that
    /// hold no live sample have no part in it.
    ///
    /// Where the median is a mean, `T` has to be able to take it: the sum of
    /// two integers, for one, has to fit their type.
    pub fn median(&self) -> (m: T)
        requires
            self.wf(),
            self.can_report(),
        ensures
            self.reports(m),
            is_median(self@, m),
            self.filled_count() == 0 ==> is_zero(m),
    {
        if self.count == 0 {
            let zero = T::from(0);
            proof {
                let o = Seq::<T>::empty();
                assert(self@ =~= o);
                assert(self.live_slots() =~= o);
                assert(self.may_sort_to(o) && is_middle(o, zero));
            }
            return zero;
        }
        let mut sorted_buffer = self.buffer;
        proof {
            lemma_window_fills_first_slots(self.slots(), self.write_index(), self.filled_count());
            if sortable(self@) {
                lemma_sortable_rearranged(self@, self.live_slots());
            }
        }
        sort_prefix(&mut sorted_buffer, self.count);
        let ghost o = sorted_buffer@.subrange(0, self.count as int);
        proof {
            assert(self.may_sort_to(o));
        }
        if self.count % 2 == 0 {
            mean(sorted_buffer[self.count / 2 - 1], sorted_buffer[self.count / 2])
        } else {
            sorted_buffer[self.count / 2]
        }
    }

    /// Forgets every sample: the filter is as [`MovingMedian::new`] makes
    /// one.
    pub fn clear(&mut self)
        requires
            N > 0,
        ensures
            final(self).is_fresh(),
            final(self)@ == Seq::<T>::empty(),
    {
        self.buffer = [T::default();N];
        self.count = 0;
        self.index = 0;
    }
}

impl<T, const N: usize> MovingMedian<T, N> {
    /// Filters in the same state hold the same window.
    pub proof fn lemma_same_window(self, other: Self)
        requires
            self.wf(),
            other.wf(),
            self.same_state(other),
        ensures
            self@ == other@,
    {
        assert forall|i: int| 0 <= i < self.filled_count() implies self@[i] == other@[i] by {
            lemma_window_slot(N as nat, self.write_index(), self.filled_count(), i);
            let k: int = (self.write_index() - self.filled_count() + i) % (N as int);
            assert(self.slots()[k] == self.live_slots()[k]);
        }
    }

    /// Filters in the same state are in the same state again after the same
    /// sample was added to each.
    pub proof fn law_same_state_kept(self, other: Self, v: T, self_then: Self, other_then: Self)
        requires
            self.wf(),
            other.wf(),
            self.same_state(other),
            self_then.is_after_adding(self, v),
            other_then.is_after_adding(other, v),
        ensures
            self_then.same_state(other_then),
    {
        let a = self_then.live_slots();
        let b = other_then.live_slots();
        assert forall|k: int| 0 <= k < a.len() implies a[k] == b[k] by {
            if k != self.write_index() {
                assert(a[k] == self.live_slots()[k]);
            }
        }
        assert(a =~= b);
    }
}

impl<T, const N: usize> MovingMedian<T, N> where
    T: PartialOrd + Add<Output = T> + Div<Output = T> + From<u8>,
 {
    /// A filter can report a median where the median of its window can be
    /// computed, however the window comes to be arranged.
    pub proof fn law_can_report(self)
        requires
            median_defined(self@),
        ensures
            self.can_report(),
    {
    }

    /// Asking a filter for its median again gives the same value, where the
    /// comparison of `T` is exact and, unless the number of samples is odd,
    /// its arithmetic is too.
    pub proof fn law_asked_again(self, m1: T, m2: T)
        requires
            self.wf(),
            exact_comparison::<T>(),
            self.filled_count() % 2 == 1 || exact_arithmetic::<T>(),
            self.reports(m1),
            self.reports(m2),
        ensures
            m1 == m2,
    {
        lemma_exchange_sorted_len(self.live_slots());
    }

    /// Filters in the same state report the same medians, and either both
    /// can report one or neither can.
    pub proof fn law_same_state_same_median(self, other: Self, m: T)
        requires
            self.wf(),
            other.wf(),
            self.same_state(other),
        ensures
            self@ == other@,
            self.reports(m) <==> other.reports(m),
            self.can_report() <==> other.can_report(),
    {
        self.lemma_same_window(other);
        assert forall|o: Seq<T>| self.may_sort_to(o) <==> other.may_sort_to(o) by {}
    }
}

impl<T: Default, const N: usize> MovingMedian<T, N> {
    /// A filter that was cleared cannot be told from a new one: the two are
    /// in the same state and hold no sample. By
    /// [`MovingMedian::law_same_state_kept`] and
    /// [`MovingMedian::law_same_state_same_median`] they are in the same
    /// state, and report the same medians, whatever is added to both from
    /// then on.
    pub proof fn law_cleared_is_as_new(cleared: Self, made: Self)
        requires
            cleared.is_fresh(),
            made.is_fresh(),
        ensures
            cleared.same_state(made),
            cleared@ == Seq::<T>::empty(),
            made@ == Seq::<T>::empty(),
    {
        assert(cleared.live_slots() =~= made.live_slots());
    }
}

} // verus!
