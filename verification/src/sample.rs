//! What the filter asks of its sample type.
//!
//! A sample type brings its own comparison, addition, division and its own
//! zero. The filter never looks inside a sample; everything it states about a
//! result is stated through these operations.
//!
//! The filter takes samples of any such type, and what it promises grows
//! with what the type keeps to. Of any type it promises that the median is
//! made of the samples held. Where comparing is exact it says which of them.
//! Where the samples held can be sorted, the median is their true median.

use core::ops::{Add, Div};
use vstd::prelude::*;
use vstd::seq_lib::to_multiset_contains;
use vstd::std_specs::cmp::{PartialOrdIs, PartialOrdSpec};
use vstd::std_specs::convert::FromSpec;
use vstd::std_specs::ops::{AddSpec, DivSpec};

verus! {

/// `a` may stand before `b` in ascending order: `a > b` is false.
///
/// `a > b` is the one comparison the filter makes when it sorts.
pub open spec fn at_most<T: PartialOrd>(a: T, b: T) -> bool {
    !a.is_gt(&b)
}

/// [`at_most`] as a relation.
pub open spec fn ascending<T: PartialOrd>() -> spec_fn(T, T) -> bool {
    |a: T, b: T| at_most(a, b)
}

/// The comparison of `T` is a function of its operands: comparing the same
/// two samples again gives the same answer.
///
/// This holds of the integer types. Of a floating-point type it is not known
/// to hold.
pub open spec fn exact_comparison<T: PartialOrd>() -> bool {
    T::obeys_partial_cmp_spec()
}

/// What a total order asks of three samples: each may stand beside itself,
/// of two one may stand before the other, what may stand before a sample may
/// stand before all that it may stand before, and two samples that may stand
/// on either side of each other are one.
pub open spec fn order_laws<T: PartialOrd>(a: T, b: T, c: T) -> bool {
    &&& at_most(a, a)
    &&& at_most(a, b) || at_most(b, a)
    &&& at_most(a, b) && at_most(b, c) ==> at_most(a, c)
    &&& at_most(a, b) && at_most(b, a) ==> a == b
}

/// The samples of `w` can be sorted: the comparison of `T` is a function of
/// its operands, and [`at_most`] is a total order on the samples of `w`.
///
/// A window of integers can always be sorted. A window that holds a sample
/// which does not compare, such as a NaN, cannot.
pub open spec fn sortable<T: PartialOrd>(w: Seq<T>) -> bool {
    &&& exact_comparison::<T>()
    &&& forall|a: T, b: T, c: T|
        #![trigger w.contains(a), w.contains(b), w.contains(c)]
        w.contains(a) && w.contains(b) && w.contains(c) ==> order_laws(a, b, c)
}

/// The order laws for three samples of a window that can be sorted.
pub proof fn lemma_sortable<T: PartialOrd>(w: Seq<T>, i: int, j: int, k: int)
    requires
        sortable(w),
        0 <= i < w.len(),
        0 <= j < w.len(),
        0 <= k < w.len(),
    ensures
        order_laws(w[i], w[j], w[k]),
{
    assert(w.contains(w[i]) && w.contains(w[j]) && w.contains(w[k]));
}

/// Whether a window can be sorted depends on the samples in it, not on where
/// they stand.
pub proof fn lemma_sortable_rearranged<T: PartialOrd>(w: Seq<T>, o: Seq<T>)
    requires
        sortable(w),
        o.to_multiset() == w.to_multiset(),
    ensures
        sortable(o),
{
    assert forall|a: T, b: T, c: T|
        #![trigger o.contains(a), o.contains(b), o.contains(c)]
        o.contains(a) && o.contains(b) && o.contains(c) implies order_laws(a, b, c) by {
        to_multiset_contains(o, a);
        to_multiset_contains(w, a);
        to_multiset_contains(o, b);
        to_multiset_contains(w, b);
        to_multiset_contains(o, c);
        to_multiset_contains(w, c);
    }
}

/// `z` is what `T::from(0)` gives: the zero of `T`.
pub open spec fn is_zero<T: From<u8>>(z: T) -> bool {
    call_ensures(T::from, (0u8,), z)
}

/// `d` is what `T::default()` gives.
pub open spec fn is_default<T: Default>(d: T) -> bool {
    call_ensures(T::default, (), d)
}

/// `T` can compute `(a + b) / T::from(2)`: the sum is allowed, and so is the
/// division of whatever the sum gives by whatever `T::from(2)` gives.
pub open spec fn mean_defined<T: Add<Output = T> + Div<Output = T> + From<u8>>(
    a: T,
    b: T,
) -> bool {
    &&& call_requires(T::add, (a, b))
    &&& forall|sum: T, two: T|
        call_ensures(T::add, (a, b), sum) && call_ensures(T::from, (2u8,), two)
            ==> #[trigger] call_requires(T::div, (sum, two))
}

/// `m` is a value of `(a + b) / T::from(2)`, computed in `T`'s own arithmetic.
pub open spec fn is_mean<T: Add<Output = T> + Div<Output = T> + From<u8>>(
    a: T,
    b: T,
    m: T,
) -> bool {
    exists|sum: T, two: T|
        call_ensures(T::add, (a, b), sum) && call_ensures(T::from, (2u8,), two)
            && #[trigger] call_ensures(T::div, (sum, two), m)
}

/// The arithmetic of `T` is a function of its operands: a sum, a quotient and
/// a conversion from `u8` each have one value.
///
/// This holds of the integer types. Of a floating-point type it is not known
/// to hold.
pub open spec fn exact_arithmetic<T: Add<Output = T> + Div<Output = T> + From<u8>>() -> bool {
    &&& T::obeys_add_spec()
    &&& T::obeys_div_spec()
    &&& T::obeys_from_spec()
}

/// `(a + b) / 2` as the arithmetic of `T` defines it.
pub open spec fn mean_of<T: Add<Output = T> + Div<Output = T> + From<u8>>(a: T, b: T) -> T {
    a.add_spec(b).div_spec(T::from_spec(2u8))
}

/// Where the arithmetic of `T` is exact, the zero is `T::from(0)` and the
/// mean of `a` and `b` is `(a + b) / 2`, each as `T` defines it.
pub proof fn law_exact_values<T: Add<Output = T> + Div<Output = T> + From<u8>>(
    a: T,
    b: T,
    m: T,
    z: T,
)
    requires
        exact_arithmetic::<T>(),
    ensures
        is_zero(z) ==> z == T::from_spec(0u8),
        is_mean(a, b, m) ==> m == mean_of(a, b),
{
}

/// The mean of two samples, in the arithmetic of `T`.
pub(crate) fn mean<T: Copy + Add<Output = T> + Div<Output = T> + From<u8>>(a: T, b: T) -> (m: T)
    requires
        mean_defined(a, b),
    ensures
        is_mean(a, b, m),
{
    (a + b) / T::from(2)
}

} // verus!
