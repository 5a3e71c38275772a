//! What a filter reports, from the day it was made.
//!
//! A new filter holds no sample, and each addition slides its window. So the
//! window of a filter that was new and has since been given the samples `vs`
//! is `added(vs, N)`, and its median is a median of that.

use crate::median::{
    is_median, is_middle, lemma_median_is_middle_of_sorted, lemma_median_of_none,
    lemma_median_of_one, lemma_median_of_same_samples, lemma_median_of_two,
};
use crate::sample::{ascending, at_most, is_mean, is_zero, sortable};
use crate::window::{feed, law_window_holds_newest, newest, slide};
use core::ops::{Add, Div};
use vstd::prelude::*;
use vstd::relations::sorted_by;
use vstd::seq_lib::to_multiset_len;

verus! {

/// The window of a filter of `cap` slots that was new and was then given the
/// samples `vs`, in order.
pub open spec fn added<T>(vs: Seq<T>, cap: nat) -> Seq<T> {
    feed(Seq::<T>::empty(), vs, cap)
}

/// A filter that was given nothing reports the zero of `T`.
pub proof fn law_nothing_added<T: PartialOrd + Add<Output = T> + Div<Output = T> + From<u8>>(
    cap: nat,
    m: T,
)
    requires
        0 < cap,
    ensures
        added(Seq::<T>::empty(), cap) == Seq::<T>::empty(),
        is_median(added(Seq::<T>::empty(), cap), m) <==> is_zero(m),
{
    lemma_median_of_none(m);
}

/// A filter that was given one sample reports that sample.
pub proof fn law_one_added<T: PartialOrd + Add<Output = T> + Div<Output = T> + From<u8>>(
    cap: nat,
    v: T,
    m: T,
)
    requires
        0 < cap,
    ensures
        added(seq![v], cap) == slide(Seq::<T>::empty(), v, cap),
        added(seq![v], cap) == seq![v],
        is_median(added(seq![v], cap), m) <==> m == v,
{
    law_window_holds_newest(Seq::<T>::empty(), seq![v], cap);
    lemma_median_of_one(v, m);
}

/// A filter of two slots or more that was given two samples reports the mean
/// of the lesser and the greater, whichever it was given first.
pub proof fn law_two_added<T: PartialOrd + Add<Output = T> + Div<Output = T> + From<u8>>(
    cap: nat,
    a: T,
    b: T,
    m: T,
)
    requires
        2 <= cap,
        sortable(seq![a, b]),
        at_most(a, b),
    ensures
        is_median(added(seq![a, b], cap), m) <==> is_mean(a, b, m),
        is_median(added(seq![b, a], cap), m) <==> is_mean(a, b, m),
{
    law_window_holds_newest(Seq::<T>::empty(), seq![a, b], cap);
    law_window_holds_newest(Seq::<T>::empty(), seq![b, a], cap);
    lemma_median_of_two(a, b, m);
}

/// A filter that was given no more samples than it has slots holds them all,
/// and reports a median of them all.
pub proof fn law_few_added<T: PartialOrd + Add<Output = T> + Div<Output = T> + From<u8>>(
    cap: nat,
    vs: Seq<T>,
    m: T,
)
    requires
        0 < cap,
        vs.len() <= cap,
    ensures
        added(vs, cap) == vs,
        is_median(added(vs, cap), m) <==> is_median(vs, m),
{
    law_window_holds_newest(Seq::<T>::empty(), vs, cap);
}

/// What such a filter reports does not depend on the order in which its
/// samples came.
pub proof fn law_any_order_added<T: PartialOrd + Add<Output = T> + Div<Output = T> + From<u8>>(
    cap: nat,
    vs: Seq<T>,
    other: Seq<T>,
    m: T,
)
    requires
        0 < cap,
        vs.len() <= cap,
        other.to_multiset() == vs.to_multiset(),
    ensures
        is_median(added(vs, cap), m) <==> is_median(added(other, cap), m),
{
    to_multiset_len(other);
    to_multiset_len(vs);
    law_window_holds_newest(Seq::<T>::empty(), vs, cap);
    law_window_holds_newest(Seq::<T>::empty(), other, cap);
    lemma_median_of_same_samples(vs, other, m);
}

/// Where its samples can be sorted, such a filter reports their true median:
/// the middle of them in ascending order.
pub proof fn law_sortable_added<T: PartialOrd + Add<Output = T> + Div<Output = T> + From<u8>>(
    cap: nat,
    vs: Seq<T>,
    sorted: Seq<T>,
    m: T,
)
    requires
        0 < cap,
        vs.len() <= cap,
        sortable(vs),
        sorted.to_multiset() == vs.to_multiset(),
        sorted_by(sorted, ascending::<T>()),
    ensures
        is_median(added(vs, cap), m) <==> is_middle(sorted, m),
{
    law_window_holds_newest(Seq::<T>::empty(), vs, cap);
    lemma_median_is_middle_of_sorted(vs, sorted, m);
}

/// A filter that was given more samples than it has slots holds the newest
/// of them, one for each slot, and reports a median of those. The older ones
/// have no part in it: with other samples in their place the filter holds
/// the same window.
pub proof fn law_many_added<T: PartialOrd + Add<Output = T> + Div<Output = T> + From<u8>>(
    cap: nat,
    vs: Seq<T>,
    other: Seq<T>,
    m: T,
)
    requires
        0 < cap,
        vs.len() > cap,
    ensures
        added(vs, cap) == vs.subrange(vs.len() - cap, vs.len() as int),
        is_median(added(vs, cap), m) <==> is_median(newest(vs, cap), m),
        newest(other, cap) == newest(vs, cap) ==> added(other, cap) == added(vs, cap),
{
    law_window_holds_newest(Seq::<T>::empty(), vs, cap);
    law_window_holds_newest(Seq::<T>::empty(), other, cap);
}

} // verus!
