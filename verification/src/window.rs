//! The window of a ring buffer, as a sequence.
//!
//! A ring of `n` slots is written at one slot after the other and wraps at the
//! end. Its window is the run of samples that are still held, oldest first.

use vstd::arithmetic::div_mod::lemma_fundamental_div_mod_converse;
use vstd::prelude::*;
use vstd::seq_lib::lemma_seq_union_to_multiset_commutative;

verus! {

/// The slot that follows `slot` in a ring of `slots` slots.
pub open spec fn next_slot(slot: nat, slots: nat) -> nat {
    (slot + 1) % slots
}

/// How many samples a ring of `slots` slots holds after one more is written
/// to it, where it held `count`.
pub open spec fn count_after_write(count: nat, slots: nat) -> nat {
    if count < slots {
        count + 1
    } else {
        slots
    }
}

/// The `count` most recently written slots of a ring whose next write goes to
/// slot `next`, oldest first: the last of them is slot `next - 1`, counted
/// round the ring.
pub open spec fn live_window<T>(slots: Seq<T>, next: nat, count: nat) -> Seq<T> {
    Seq::new(count, |i: int| slots[(next - count + i) % (slots.len() as int)])
}

/// The window `w` after one more sample `v`, where at most `cap` samples are
/// held: `v` comes last, and once the window is full the oldest sample leaves.
pub open spec fn slide<T>(w: Seq<T>, v: T, cap: nat) -> Seq<T> {
    if w.len() < cap {
        w.push(v)
    } else {
        w.drop_first().push(v)
    }
}

/// The window `w` after the samples `vs`, added in order.
pub open spec fn feed<T>(w: Seq<T>, vs: Seq<T>, cap: nat) -> Seq<T>
    decreases vs.len(),
{
    if vs.len() == 0 {
        w
    } else {
        slide(feed(w, vs.drop_last(), cap), vs.last(), cap)
    }
}

/// The last `cap` samples of `vs`, or all of `vs` where it has fewer.
pub open spec fn newest<T>(vs: Seq<T>, cap: nat) -> Seq<T> {
    if vs.len() <= cap {
        vs
    } else {
        vs.subrange(vs.len() - cap, vs.len() as int)
    }
}

/// After any run of additions a window holds the newest samples, as many as
/// it has room for, in the order in which they arrived. While there is room
/// those are all the samples; after that everything older is gone.
pub proof fn law_window_holds_newest<T>(w: Seq<T>, vs: Seq<T>, cap: nat)
    requires
        0 < cap,
        w.len() <= cap,
    ensures
        feed(w, vs, cap) == newest(w + vs, cap),
        w.len() == 0 && vs.len() <= cap ==> feed(w, vs, cap) == vs,
        w.len() == 0 && vs.len() > cap ==> feed(w, vs, cap) == vs.subrange(
            vs.len() - cap,
            vs.len() as int,
        ),
    decreases vs.len(),
{
    if vs.len() > 0 {
        law_window_holds_newest(w, vs.drop_last(), cap);
    }
}

/// A ring is filled from slot 0 on, so until it is full the next write goes
/// to the slot whose number is the count of samples held.
pub open spec fn ring_inv(slots: nat, next: nat, count: nat) -> bool {
    &&& 0 < slots
    &&& next < slots
    &&& count <= slots
    &&& count < slots ==> next == count
}

/// Where the `i`-th sample of the window lies: a ring that is not yet full
/// holds its window in its first slots, in order; a full ring holds it from
/// slot `next` on, round the ring.
pub proof fn lemma_window_slot(slots: nat, next: nat, count: nat, i: int)
    requires
        ring_inv(slots, next, count),
        0 <= i < count,
    ensures
        count < slots ==> (next - count + i) % (slots as int) == i,
        count == slots && next + i < slots ==> (next - count + i) % (slots as int) == next + i,
        count == slots && next + i >= slots ==> (next - count + i) % (slots as int) == next + i
            - slots,
{
    let n: int = slots as int;
    if count < slots {
        lemma_fundamental_div_mod_converse(next - count + i, n, 0, i);
    } else if next + i < slots {
        lemma_fundamental_div_mod_converse(next - count + i, n, -1, next + i);
    } else {
        lemma_fundamental_div_mod_converse(next - count + i, n, 0, next + i - n);
    }
}

/// Writing `v` to slot `next` of a ring and moving on slides the window:
/// this is how a ring buffer keeps the newest samples.
pub proof fn lemma_write_slides<T>(slots: Seq<T>, next: nat, count: nat, v: T)
    requires
        ring_inv(slots.len(), next, count),
    ensures
        ring_inv(
            slots.len(),
            next_slot(next, slots.len()),
            count_after_write(count, slots.len()),
        ),
        live_window(
            slots.update(next as int, v),
            next_slot(next, slots.len()),
            count_after_write(count, slots.len()),
        ) == slide(live_window(slots, next, count), v, slots.len()),
{
    let n: nat = slots.len();
    let next2: nat = next_slot(next, n);
    let count2: nat = count_after_write(count, n);
    if next + 1 < n {
        lemma_fundamental_div_mod_converse((next + 1) as int, n as int, 0, (next + 1) as int);
    } else {
        lemma_fundamental_div_mod_converse((next + 1) as int, n as int, 1, 0);
    }
    let before = live_window(slots, next, count);
    let after = live_window(slots.update(next as int, v), next2, count2);
    let slid = slide(before, v, n);
    assert forall|i: int| 0 <= i < after.len() implies after[i] == slid[i] by {
        lemma_window_slot(n, next2, count2, i);
        if count < n {
            if i < count {
                lemma_window_slot(n, next, count, i);
            }
        } else {
            if i + 1 < count {
                lemma_window_slot(n, next, count, i + 1);
            }
        }
    }
}

/// The window of a ring holds the samples of its first `count` slots: in
/// their order until the ring is full, and from then on turned round.
pub proof fn lemma_window_fills_first_slots<T>(slots: Seq<T>, next: nat, count: nat)
    requires
        ring_inv(slots.len(), next, count),
    ensures
        live_window(slots, next, count).to_multiset() == slots.subrange(
            0,
            count as int,
        ).to_multiset(),
{
    let n: int = slots.len() as int;
    let w = live_window(slots, next, count);
    let first = slots.subrange(0, count as int);
    if count < slots.len() {
        assert forall|i: int| 0 <= i < count implies w[i] == first[i] by {
            lemma_window_slot(slots.len(), next, count, i);
        }
        assert(w =~= first);
    } else {
        let head = slots.subrange(0, next as int);
        let tail = slots.subrange(next as int, n);
        assert forall|i: int| 0 <= i < count implies w[i] == (tail + head)[i] by {
            lemma_window_slot(slots.len(), next, count, i);
        }
        assert(w =~= tail + head);
        assert(first =~= head + tail);
        lemma_seq_union_to_multiset_commutative(head, tail);
    }
}

} // verus!
