//! Unsigned integers as samples.
//!
//! An integer type has no halves, so the mean of two samples is not always
//! their true mean. The filter divides as the type divides: for the unsigned
//! integers the mean of two samples is half their sum, rounded down. Their
//! sum has to fit the type.

use crate::sample::{exact_arithmetic, is_mean, is_zero, mean_defined, sortable};
use vstd::prelude::*;

verus! {

/// `u16` samples: every window can be sorted, the arithmetic is exact, the
/// zero is 0, the mean of two samples can be taken where their sum fits, and
/// it is half that sum, rounded down.
pub proof fn law_u16_samples(w: Seq<u16>, a: u16, b: u16, m: u16)
    ensures
        sortable(w),
        exact_arithmetic::<u16>(),
        is_zero(m) ==> m == 0,
        a + b <= u16::MAX ==> mean_defined(a, b),
        a + b <= u16::MAX && is_mean(a, b, m) ==> m == (a + b) / 2,
{
}

/// `u32` samples: every window can be sorted, the arithmetic is exact, the
/// zero is 0, the mean of two samples can be taken where their sum fits, and
/// it is half that sum, rounded down.
pub proof fn law_u32_samples(w: Seq<u32>, a: u32, b: u32, m: u32)
    ensures
        sortable(w),
        exact_arithmetic::<u32>(),
        is_zero(m) ==> m == 0,
        a + b <= u32::MAX ==> mean_defined(a, b),
        a + b <= u32::MAX && is_mean(a, b, m) ==> m == (a + b) / 2,
{
}

/// `u64` samples: every window can be sorted, the arithmetic is exact, the
/// zero is 0, the mean of two samples can be taken where their sum fits, and
/// it is half that sum, rounded down.
pub proof fn law_u64_samples(w: Seq<u64>, a: u64, b: u64, m: u64)
    ensures
        sortable(w),
        exact_arithmetic::<u64>(),
        is_zero(m) ==> m == 0,
        a + b <= u64::MAX ==> mean_defined(a, b),
        a + b <= u64::MAX && is_mean(a, b, m) ==> m == (a + b) / 2,
{
}

/// `u128` samples: every window can be sorted, the arithmetic is exact, the
/// zero is 0, the mean of two samples can be taken where their sum fits, and
/// it is half that sum, rounded down.
pub proof fn law_u128_samples(w: Seq<u128>, a: u128, b: u128, m: u128)
    ensures
        sortable(w),
        exact_arithmetic::<u128>(),
        is_zero(m) ==> m == 0,
        a + b <= u128::MAX ==> mean_defined(a, b),
        a + b <= u128::MAX && is_mean(a, b, m) ==> m == (a + b) / 2,
{
}

/// `usize` samples: every window can be sorted, the arithmetic is exact, the
/// zero is 0, the mean of two samples can be taken where their sum fits, and
/// it is half that sum, rounded down.
pub proof fn law_usize_samples(w: Seq<usize>, a: usize, b: usize, m: usize)
    ensures
        sortable(w),
        exact_arithmetic::<usize>(),
        is_zero(m) ==> m == 0,
        a + b <= usize::MAX ==> mean_defined(a, b),
        a + b <= usize::MAX && is_mean(a, b, m) ==> m == (a + b) / 2,
{
}

} // verus!
