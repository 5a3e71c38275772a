//! Sorting the first slots of an array in place, by exchanging neighbours.
//!
//! The sort makes sweeps over the samples. A sweep compares each sample with
//! the next, from the front on, and exchanges the two where the first is the
//! greater; so it carries the greatest sample to the end. Each sweep is one
//! sample shorter than the one before, and there is a sweep for each sample.
//!
//! Where the samples can be sorted this leaves them in ascending order. Where
//! they cannot, it leaves them as the sweeps happen to leave them, which
//! [`exchange_sorted`] spells out.

use crate::sample::{
    ascending, at_most, exact_comparison, lemma_sortable, lemma_sortable_rearranged, sortable,
};
use vstd::prelude::*;
use vstd::relations::sorted_by;
use vstd::seq_lib::{to_multiset_contains, to_multiset_update};
use vstd::std_specs::cmp::PartialOrdIs;

verus! {

/// `s` with the samples at `j` and `j + 1` exchanged, where the first of them
/// is greater than the second.
pub open spec fn exchange_at<T: PartialOrd>(s: Seq<T>, j: int) -> Seq<T> {
    if s[j].is_gt(&s[j + 1]) {
        s.update(j, s[j + 1]).update(j + 1, s[j])
    } else {
        s
    }
}

/// `s` after the first `steps` steps of a sweep: step `j` is
/// [`exchange_at`] `j`.
pub open spec fn sweep<T: PartialOrd>(s: Seq<T>, steps: nat) -> Seq<T>
    decreases steps,
{
    if steps == 0 {
        s
    } else {
        exchange_at(sweep(s, (steps - 1) as nat), steps - 1)
    }
}

/// `s` after the first `rounds` sweeps. The first sweep has a step for each
/// pair of neighbours in `s`, and each later one has one step less.
pub open spec fn sweeps<T: PartialOrd>(s: Seq<T>, rounds: nat) -> Seq<T>
    decreases rounds,
{
    if rounds == 0 {
        s
    } else {
        sweep(sweeps(s, (rounds - 1) as nat), (s.len() - rounds) as nat)
    }
}

/// `s` as the sort leaves it: after a sweep for each sample.
pub open spec fn exchange_sorted<T: PartialOrd>(s: Seq<T>) -> Seq<T> {
    sweeps(s, s.len())
}

/// The sort keeps the number of samples.
pub proof fn lemma_exchange_sorted_len<T: PartialOrd>(s: Seq<T>)
    ensures
        exchange_sorted(s).len() == s.len(),
{
    lemma_sweeps_len(s, s.len());
}

proof fn lemma_sweep_len<T: PartialOrd>(s: Seq<T>, steps: nat)
    requires
        steps < s.len() || steps == 0,
    ensures
        sweep(s, steps).len() == s.len(),
    decreases steps,
{
    if steps > 0 {
        lemma_sweep_len(s, (steps - 1) as nat);
    }
}

proof fn lemma_sweeps_len<T: PartialOrd>(s: Seq<T>, rounds: nat)
    requires
        rounds <= s.len(),
    ensures
        sweeps(s, rounds).len() == s.len(),
    decreases rounds,
{
    if rounds > 0 {
        lemma_sweeps_len(s, (rounds - 1) as nat);
        lemma_sweep_len(sweeps(s, (rounds - 1) as nat), (s.len() - rounds) as nat);
    }
}

/// From place `from` on, every sample of `s` may stand behind all that come
/// before it.
spec fn settled_from<T: PartialOrd>(s: Seq<T>, from: int) -> bool {
    forall|p: int, q: int|
        0 <= p < q < s.len() && from <= q ==> at_most(#[trigger] s[p], #[trigger] s[q])
}

/// Exchanging two samples leaves a sequence with the samples it had.
proof fn lemma_exchange<T>(s: Seq<T>, i: int, j: int)
    requires
        0 <= i < s.len(),
        0 <= j < s.len(),
    ensures
        s.update(i, s[j]).update(j, s[i]).to_multiset() == s.to_multiset(),
{
    to_multiset_update(s, i, s[j]);
    to_multiset_update(s.update(i, s[j]), j, s[i]);
    to_multiset_contains(s, s[i]);
}

/// Sorts the first `len` slots of `buf` by exchanging neighbours, and leaves
/// the other slots alone.
///
/// Whatever the order of `T` is, the slots afterwards hold the samples they
/// held before. Where those can be sorted, they are in ascending order. And
/// where the comparison of `T` is exact, they are as [`exchange_sorted`] says.
pub(crate) fn sort_prefix<T: Copy + PartialOrd, const N: usize>(buf: &mut [T; N], len: usize)
    requires
        len <= N,
    ensures
        final(buf)@.subrange(0, len as int).to_multiset() == old(buf)@.subrange(
            0,
            len as int,
        ).to_multiset(),
        final(buf)@.subrange(len as int, N as int) == old(buf)@.subrange(len as int, N as int),
        sortable(old(buf)@.subrange(0, len as int)) ==> sorted_by(
            final(buf)@.subrange(0, len as int),
            ascending::<T>(),
        ),
        exact_comparison::<T>() ==> final(buf)@.subrange(0, len as int) == exchange_sorted(
            old(buf)@.subrange(0, len as int),
        ),
{
    let ghost before = buf@.subrange(0, len as int);
    let ghost rest = buf@.subrange(len as int, N as int);
    let ghost can_sort = sortable(before);
    let mut i: usize = 0;
    while i < len
        invariant
            i <= len <= N,
            before.len() == len,
            buf@.subrange(0, len as int).to_multiset() == before.to_multiset(),
            buf@.subrange(len as int, N as int) == rest,
            can_sort ==> sortable(buf@.subrange(0, len as int)),
            can_sort ==> settled_from(buf@.subrange(0, len as int), len - i),
            exact_comparison::<T>() ==> buf@.subrange(0, len as int) == sweeps(before, i as nat),
        decreases len - i,
    {
        let ghost start = buf@.subrange(0, len as int);
        let mut j: usize = 0;
        while j + 1 < len - i
            invariant
                i < len <= N,
                j < len - i,
                start.len() == len,
                buf@.subrange(0, len as int).to_multiset() == before.to_multiset(),
                buf@.subrange(len as int, N as int) == rest,
                can_sort ==> sortable(buf@.subrange(0, len as int)),
                can_sort ==> settled_from(buf@.subrange(0, len as int), len - i),
                can_sort ==> forall|p: int|
                    0 <= p < j ==> at_most(#[trigger] buf@[p], buf@[j as int]),
                exact_comparison::<T>() ==> buf@.subrange(0, len as int) == sweep(
                    start,
                    j as nat,
                ),
            decreases len - i - j,
        {
            let ghost was = buf@.subrange(0, len as int);
            let left = buf[j];
            let right = buf[j + 1];
            if left > right {
                buf[j] = right;
                buf[j + 1] = left;
                proof {
                    lemma_exchange(was, j as int, j + 1);
                    assert(buf@.subrange(0, len as int) =~= was.update(j as int, right).update(
                        j + 1,
                        left,
                    ));
                }
            }
            proof {
                let now = buf@.subrange(0, len as int);
                if can_sort {
                    lemma_sortable_rearranged(was, now);
                    assert forall|p: int| 0 <= p < j + 1 implies at_most(
                        #[trigger] buf@[p],
                        buf@[j + 1],
                    ) by {
                        lemma_sortable(was, p, j as int, j + 1);
                        lemma_sortable(was, j as int, j + 1, j as int);
                    }
                    assert forall|p: int, q: int|
                        0 <= p < q < now.len() && len - i <= q implies at_most(
                        #[trigger] now[p],
                        #[trigger] now[q],
                    ) by {}
                }
            }
            j += 1;
        }
        proof {
            if can_sort {
                let now = buf@.subrange(0, len as int);
                assert forall|p: int, q: int|
                    0 <= p < q < now.len() && len - (i + 1) <= q implies at_most(
                    #[trigger] now[p],
                    #[trigger] now[q],
                ) by {}
            }
        }
        i += 1;
    }
    proof {
        if can_sort {
            let now = buf@.subrange(0, len as int);
            let r = ascending::<T>();
            assert forall|p: int, q: int| 0 <= p < q < now.len() implies #[trigger] r(
                now[p],
                now[q],
            ) by {}
        }
    }
}

} // verus!
