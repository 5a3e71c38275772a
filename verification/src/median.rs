//! What the median of a window is.
//!
//! The filter sorts a copy of its window and reports the middle of it. Where
//! the samples of the window can be sorted, there is one way to do so and the
//! median is the middle of that. Where they cannot, because some sample does
//! not compare, a sort still only moves samples about, so the median is the
//! middle of the window in some arrangement.

use crate::sample::{
    ascending, at_most, is_mean, is_zero, lemma_sortable_rearranged, mean_defined, order_laws,
    sortable,
};
use core::ops::{Add, Div};
use vstd::prelude::*;
use vstd::relations::sorted_by;
use vstd::seq_lib::{
    lemma_seq_union_to_multiset_commutative, to_multiset_contains, to_multiset_len,
    to_multiset_remove,
};

verus! {

/// `o` is a way to lay out the samples of `w` for taking the median: it holds
/// the same samples, each as often as `w` does, and where they can be sorted
/// it holds them in ascending order.
pub open spec fn arranges<T: PartialOrd>(o: Seq<T>, w: Seq<T>) -> bool {
    &&& o.to_multiset() == w.to_multiset()
    &&& sortable(w) ==> sorted_by(o, ascending::<T>())
}

/// `m` is the middle of `o`: the zero of `T` where `o` is empty, the sample
/// in the middle where their number is odd, and the mean of the two in the
/// middle where it is even.
pub open spec fn is_middle<T: Add<Output = T> + Div<Output = T> + From<u8>>(
    o: Seq<T>,
    m: T,
) -> bool {
    let n: int = o.len() as int;
    if n == 0 {
        is_zero(m)
    } else if n % 2 == 1 {
        m == o[n / 2]
    } else {
        is_mean(o[n / 2 - 1], o[n / 2], m)
    }
}

/// The middle of `o` can be computed: where it is a mean, `T` can take it.
pub open spec fn middle_defined<T: Add<Output = T> + Div<Output = T> + From<u8>>(
    o: Seq<T>,
) -> bool {
    let n: int = o.len() as int;
    n > 0 && n % 2 == 0 ==> mean_defined(o[n / 2 - 1], o[n / 2])
}

/// `m` is a median of the window `w`: the middle of an arrangement of `w`.
pub open spec fn is_median<T: PartialOrd + Add<Output = T> + Div<Output = T> + From<u8>>(
    w: Seq<T>,
    m: T,
) -> bool {
    exists|o: Seq<T>| #[trigger] arranges(o, w) && is_middle(o, m)
}

/// The median of `w` can be computed, however `w` comes to be arranged.
pub open spec fn median_defined<T: PartialOrd + Add<Output = T> + Div<Output = T> + From<u8>>(
    w: Seq<T>,
) -> bool {
    forall|o: Seq<T>| #[trigger] arranges(o, w) ==> middle_defined(o)
}

/// The median of `w` can be computed where the number of its samples is odd
/// or zero, and where `T` can take the mean of any two of them.
pub proof fn law_median_defined<T: PartialOrd + Add<Output = T> + Div<Output = T> + From<u8>>(
    w: Seq<T>,
)
    requires
        w.len() > 0 && w.len() % 2 == 0 ==> forall|i: int, j: int|
            0 <= i < w.len() && 0 <= j < w.len() && i != j ==> mean_defined(
                #[trigger] w[i],
                #[trigger] w[j],
            ),
    ensures
        median_defined(w),
{
    assert forall|o: Seq<T>| #[trigger] arranges(o, w) implies middle_defined(o) by {
        to_multiset_len(o);
        to_multiset_len(w);
        let n: int = o.len() as int;
        if n > 0 && n % 2 == 0 {
            let p: int = n / 2 - 1;
            let a = o[p];
            let b = o[p + 1];
            // `a` stands somewhere in `w`
            to_multiset_contains(o, a);
            to_multiset_contains(w, a);
            let i = choose|i: int| 0 <= i < w.len() && w[i] == a;
            // and with one `a` taken from both, `b` still stands in what is left
            to_multiset_remove(o, p);
            to_multiset_remove(w, i);
            assert(o.remove(p)[p] == b);
            to_multiset_contains(o.remove(p), b);
            to_multiset_contains(w.remove(i), b);
            let k = choose|k: int| 0 <= k < w.remove(i).len() && w.remove(i)[k] == b;
            let j: int = if k < i {
                k
            } else {
                k + 1
            };
            assert(mean_defined(w[i], w[j]));
        }
    }
}

/// The median of a window that can be sorted can be computed where the
/// middle of its samples in ascending order can.
pub proof fn law_median_defined_by_sorted<
    T: PartialOrd + Add<Output = T> + Div<Output = T> + From<u8>,
>(w: Seq<T>, o: Seq<T>)
    requires
        sortable(w),
        o.to_multiset() == w.to_multiset(),
        sorted_by(o, ascending::<T>()),
        middle_defined(o),
    ensures
        median_defined(w),
{
    assert forall|o2: Seq<T>| #[trigger] arranges(o2, w) implies middle_defined(o2) by {
        lemma_one_arrangement(o, o2, w);
    }
}

/// Samples that can be sorted are in ascending order in one way only.
pub proof fn lemma_one_ascending_order<T: PartialOrd>(o1: Seq<T>, o2: Seq<T>)
    requires
        sortable(o1),
        o1.to_multiset() == o2.to_multiset(),
        sorted_by(o1, ascending::<T>()),
        sorted_by(o2, ascending::<T>()),
    ensures
        o1 == o2,
    decreases o1.len(),
{
    to_multiset_len(o1);
    to_multiset_len(o2);
    if o1.len() > 0 {
        let r = ascending::<T>();
        let last: int = o1.len() - 1;
        let g1 = o1[last];
        let g2 = o2[last];
        // the last of each stands somewhere in the other, so neither is greater
        to_multiset_contains(o1, g1);
        to_multiset_contains(o2, g1);
        to_multiset_contains(o1, g2);
        to_multiset_contains(o2, g2);
        let i1 = choose|i: int| 0 <= i < o1.len() && o1[i] == g2;
        let i2 = choose|i: int| 0 <= i < o2.len() && o2[i] == g1;
        assert(i1 < last ==> r(o1[i1], o1[last]));
        assert(i2 < last ==> r(o2[i2], o2[last]));
        assert(g1 == g2);
        // and what stands before them is in ascending order too
        let rest1 = o1.remove(last);
        let rest2 = o2.remove(last);
        to_multiset_remove(o1, last);
        to_multiset_remove(o2, last);
        assert forall|a: T, b: T, c: T|
            #![trigger rest1.contains(a), rest1.contains(b), rest1.contains(c)]
            rest1.contains(a) && rest1.contains(b) && rest1.contains(c) implies order_laws(
            a,
            b,
            c,
        ) by {
            assert(o1.contains(a) && o1.contains(b) && o1.contains(c));
        }
        assert forall|p: int, q: int| 0 <= p < q < rest1.len() implies #[trigger] r(
            rest1[p],
            rest1[q],
        ) by {}
        assert forall|p: int, q: int| 0 <= p < q < rest2.len() implies #[trigger] r(
            rest2[p],
            rest2[q],
        ) by {}
        lemma_one_ascending_order(rest1, rest2);
        assert(o1 =~= rest1.push(g1));
    }
}

/// A window that can be sorted has one arrangement.
pub proof fn lemma_one_arrangement<T: PartialOrd>(o1: Seq<T>, o2: Seq<T>, w: Seq<T>)
    requires
        sortable(w),
        arranges(o1, w),
        arranges(o2, w),
    ensures
        o1 == o2,
{
    lemma_sortable_rearranged(w, o1);
    lemma_one_ascending_order(o1, o2);
}

/// The median of a window that can be sorted is the middle of its samples
/// in ascending order, and of nothing else.
pub proof fn lemma_median_is_middle_of_sorted<
    T: PartialOrd + Add<Output = T> + Div<Output = T> + From<u8>,
>(w: Seq<T>, o: Seq<T>, m: T)
    requires
        sortable(w),
        o.to_multiset() == w.to_multiset(),
        sorted_by(o, ascending::<T>()),
    ensures
        is_median(w, m) <==> is_middle(o, m),
{
    assert(arranges(o, w));
    if is_median(w, m) {
        let o2 = choose|o2: Seq<T>| #[trigger] arranges(o2, w) && is_middle(o2, m);
        lemma_one_arrangement(o, o2, w);
    }
}

/// The median does not depend on the order in which the samples arrived:
/// two windows that hold the same samples have the same medians.
pub proof fn lemma_median_of_same_samples<
    T: PartialOrd + Add<Output = T> + Div<Output = T> + From<u8>,
>(w1: Seq<T>, w2: Seq<T>, m: T)
    requires
        w1.to_multiset() == w2.to_multiset(),
    ensures
        is_median(w1, m) <==> is_median(w2, m),
{
    if sortable(w1) {
        lemma_sortable_rearranged(w1, w2);
    }
    if sortable(w2) {
        lemma_sortable_rearranged(w2, w1);
    }
    if is_median(w1, m) {
        let o = choose|o: Seq<T>| #[trigger] arranges(o, w1) && is_middle(o, m);
        assert(arranges(o, w2));
    }
    if is_median(w2, m) {
        let o = choose|o: Seq<T>| #[trigger] arranges(o, w2) && is_middle(o, m);
        assert(arranges(o, w1));
    }
}

/// The median of no samples is the zero of `T`.
pub proof fn lemma_median_of_none<T: PartialOrd + Add<Output = T> + Div<Output = T> + From<u8>>(
    m: T,
)
    ensures
        is_median(Seq::<T>::empty(), m) <==> is_zero(m),
{
    let w = Seq::<T>::empty();
    if is_median(w, m) {
        let o = choose|o: Seq<T>| #[trigger] arranges(o, w) && is_middle(o, m);
        to_multiset_len(o);
        to_multiset_len(w);
    }
    if is_zero(m) {
        assert(arranges(w, w) && is_middle(w, m));
    }
}

/// The median of one sample is that sample.
pub proof fn lemma_median_of_one<T: PartialOrd + Add<Output = T> + Div<Output = T> + From<u8>>(
    v: T,
    m: T,
)
    ensures
        is_median(seq![v], m) <==> m == v,
{
    let w = seq![v];
    if is_median(w, m) {
        let o = choose|o: Seq<T>| #[trigger] arranges(o, w) && is_middle(o, m);
        to_multiset_len(o);
        to_multiset_len(w);
        to_multiset_contains(o, o[0]);
        to_multiset_contains(w, o[0]);
    }
    if m == v {
        assert(arranges(w, w) && is_middle(w, m));
    }
}

/// The median of two samples that compare is the mean of the lesser and the
/// greater, whichever of them arrived first.
pub proof fn lemma_median_of_two<T: PartialOrd + Add<Output = T> + Div<Output = T> + From<u8>>(
    a: T,
    b: T,
    m: T,
)
    requires
        sortable(seq![a, b]),
        at_most(a, b),
    ensures
        is_median(seq![a, b], m) <==> is_mean(a, b, m),
        is_median(seq![b, a], m) <==> is_mean(a, b, m),
{
    let o = seq![a, b];
    assert(seq![b, a] =~= seq![b] + seq![a]);
    assert(o =~= seq![a] + seq![b]);
    lemma_seq_union_to_multiset_commutative(seq![a], seq![b]);
    lemma_sortable_rearranged(o, seq![b, a]);
    lemma_median_is_middle_of_sorted(o, o, m);
    lemma_median_is_middle_of_sorted(seq![b, a], o, m);
}

} // verus!
