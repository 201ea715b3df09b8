//! Properties of the buffer that span several operations, stated over the
//! index arithmetic of `model` and over the outcomes of `Ring`'s operations,
//! which are the spec functions that their contracts use.
use vstd::prelude::*;

use crate::error::{PopAccessError, PopError, PushError};
use crate::model::{free_spans, min_int, ring_dist, ring_pos, span_len, used_spans};
use crate::ring::Ring;

verus! {

/// Walking `k` slots forward from `start` lands on `(start + k) % slots`, so
/// the positions reported after each push or pop are the ones obtained by
/// counting modulo the number of slots.
pub proof fn law_pos_is_mod(start: int, k: int, slots: int)
    requires
        0 <= start < slots,
        0 <= k <= slots,
    ensures
        ring_pos(start, k, slots) == (start + k) % slots,
        0 <= ring_pos(start, k, slots) < slots,
{
    if start + k < slots {
        vstd::arithmetic::div_mod::lemma_small_mod((start + k) as nat, slots as nat);
    } else {
        vstd::arithmetic::div_mod::lemma_mod_sub_multiples_vanish(start + k, slots);
        vstd::arithmetic::div_mod::lemma_small_mod((start + k - slots) as nat, slots as nat);
    }
}

/// Stepping one slot at a time: `k` single steps modulo `slots` land where
/// one step of `k` does.
pub proof fn law_steps_accumulate(start: int, k: int, slots: int)
    requires
        slots > 0,
    ensures
        ((start + k) % slots + 1) % slots == (start + k + 1) % slots,
{
    vstd::arithmetic::div_mod::lemma_add_mod_noop_right(1, start + k, slots);
}

/// The number of queued elements is the distance from the read position to
/// the write position, counted modulo the number of slots, and is smaller
/// than the number of slots.
pub proof fn law_dist_is_mod(head: int, tail: int, slots: int)
    requires
        0 <= head < slots,
        0 <= tail < slots,
    ensures
        ring_dist(head, tail, slots) == (tail - head) % slots,
        0 <= ring_dist(head, tail, slots) < slots,
        ring_pos(head, ring_dist(head, tail, slots), slots) == tail,
{
    if head <= tail {
        vstd::arithmetic::div_mod::lemma_small_mod((tail - head) as nat, slots as nat);
    } else {
        vstd::arithmetic::div_mod::lemma_mod_add_multiples_vanish(tail - head, slots);
        vstd::arithmetic::div_mod::lemma_small_mod((tail - head + slots) as nat, slots as nat);
    }
}

/// The two vacant ranges list exactly the vacant slots, in the order in which
/// pushes fill them: the first range starts at the write position, the
/// second at slot 0, and together they hold one slot less than the slots not
/// occupied, the one that keeps a full buffer apart from an empty one.
pub proof fn law_free_spans_cover(head: int, tail: int, slots: int)
    requires
        0 <= head < slots,
        0 <= tail < slots,
        ring_dist(head, tail, slots) < slots - 1,
    ensures
        ({
            let (a, b) = free_spans(head, tail, slots);
            &&& 0 <= a.0 <= a.1 <= slots
            &&& 0 <= b.0 <= b.1 <= slots
            &&& a.0 == tail
            &&& span_len(a) > 0
            &&& span_len(a) + span_len(b) == slots - 1 - ring_dist(head, tail, slots)
            &&& forall|j: int|
                0 <= j < span_len(a) ==> #[trigger] ring_pos(tail, j, slots) == a.0 + j
            &&& forall|j: int|
                span_len(a) <= j < span_len(a) + span_len(b) ==> #[trigger] ring_pos(tail, j, slots)
                    == b.0 + (j - span_len(a))
        }),
{
}

/// The two occupied ranges list exactly the occupied slots, oldest first: the
/// first range starts at the read position, the second at slot 0, and
/// together they hold as many slots as there are queued elements.
pub proof fn law_used_spans_cover(head: int, tail: int, slots: int)
    requires
        0 <= head < slots,
        0 <= tail < slots,
    ensures
        ({
            let (a, b) = used_spans(head, tail, slots);
            &&& 0 <= a.0 <= a.1 <= slots
            &&& 0 <= b.0 <= b.1 <= slots
            &&& a.0 == head
            &&& span_len(a) + span_len(b) == ring_dist(head, tail, slots)
            &&& forall|j: int|
                0 <= j < span_len(a) ==> #[trigger] ring_pos(head, j, slots) == a.0 + j
            &&& forall|j: int|
                span_len(a) <= j < span_len(a) + span_len(b) ==> #[trigger] ring_pos(head, j, slots)
                    == b.0 + (j - span_len(a))
        }),
{
}

/// First in, first out: after a successful push of `x`, the next pop gives
/// the element that was oldest before the push, or `x` itself when the buffer
/// was empty; and the push and the pop commute on the elements left behind.
pub proof fn law_push_then_pop<T>(
    r0: Ring<T>,
    x: T,
    pushed: Result<(), (PushError, T)>,
    r1: Ring<T>,
    popped: Result<T, PopError>,
    r2: Ring<T>,
)
    requires
        r0.push_outcome(x, pushed, r1),
        pushed is Ok,
        r1.pop_outcome(popped, r2),
    ensures
        popped == Ok::<T, PopError>(if r0@.len() == 0 { x } else { r0@[0] }),
        r0@.len() == 0 ==> r2@ == r0@,
        r0@.len() > 0 ==> r2@ == r0@.drop_first().push(x),
        r2.spec_capacity() == r0.spec_capacity(),
{
    if r0@.len() == 0 {
        assert(r0@.push(x).drop_first() =~= r0@);
    } else {
        assert(r0@.push(x).drop_first() =~= r0@.drop_first().push(x));
    }
}

/// A push on an empty buffer (read and write positions equal) is undone by
/// the next pop: the element comes back, the buffer is empty again, and both
/// positions have moved one slot forward, modulo the number of slots.
pub proof fn law_push_pop_on_empty<T>(
    r0: Ring<T>,
    x: T,
    pushed: Result<(), (PushError, T)>,
    r1: Ring<T>,
    popped: Result<T, PopError>,
    r2: Ring<T>,
)
    requires
        r0@.len() == 0,
        r0.head_index() == r0.tail_index(),
        r0.spec_capacity() > 0,
        r0.push_outcome(x, pushed, r1),
        r1.pop_outcome(popped, r2),
    ensures
        pushed is Ok,
        popped == Ok::<T, PopError>(x),
        r2@ == r0@,
        r2.head_index() == r2.tail_index(),
        r2.tail_index() == (r0.tail_index() + 1) % r0.slot_count(),
{
    law_push_then_pop(r0, x, pushed, r1, popped, r2);
}

/// A push refused by a full buffer gives the element back and changes
/// nothing.
pub proof fn law_full_refuses_push<T>(
    r0: Ring<T>,
    x: T,
    pushed: Result<(), (PushError, T)>,
    r1: Ring<T>,
)
    requires
        r0@.len() == r0.spec_capacity(),
        r0.push_outcome(x, pushed, r1),
    ensures
        pushed == Err::<(), (PushError, T)>((PushError::Full, x)),
        r1@ == r0@,
        r1.head_index() == r0.head_index(),
        r1.tail_index() == r0.tail_index(),
{
}

/// Writing a slice into an empty buffer with room for it, then reading the
/// buffer into a slice of the same length, gives the slice back and leaves
/// the buffer empty.
pub proof fn law_slice_roundtrip<T>(
    r0: Ring<T>,
    xs: Seq<T>,
    pushed: Result<usize, PushError>,
    r1: Ring<T>,
    out: Seq<T>,
    popped: Result<usize, PopError>,
    r2: Ring<T>,
    filled: Seq<T>,
)
    requires
        r0@.len() == 0,
        0 < xs.len() <= r0.spec_capacity(),
        out.len() == xs.len(),
        r0.push_slice_outcome(xs, pushed, r1),
        r1.pop_slice_outcome(out, popped, r2, filled),
    ensures
        pushed == Ok::<usize, PushError>(xs.len() as usize),
        popped == Ok::<usize, PopError>(xs.len() as usize),
        filled == xs,
        r2@ == Seq::<T>::empty(),
{
    assert(r1@ =~= xs);
    assert(filled =~= xs);
    assert(r2@ =~= Seq::<T>::empty());
}

/// Nothing is lost, duplicated or reordered by a pop: the element it returns,
/// followed by what stays queued, is what was queued; and it fails only on an
/// empty buffer, which it leaves as it was.
pub proof fn law_pop_conserves<T>(r0: Ring<T>, popped: Result<T, PopError>, r1: Ring<T>)
    requires
        r0.pop_outcome(popped, r1),
    ensures
        popped matches Ok(x) ==> seq![x] + r1@ == r0@,
        popped is Err ==> r0@.len() == 0 && r1@ == r0@,
{
    if let Ok(x) = popped {
        assert(seq![x] + r0@.drop_first() =~= r0@);
    }
}

/// A push is refused exactly when the buffer holds as many elements as its
/// capacity; an accepted element is queued behind all the others, which stay
/// as they were.
pub proof fn law_push_refused_only_when_full<T>(
    r0: Ring<T>,
    x: T,
    pushed: Result<(), (PushError, T)>,
    r1: Ring<T>,
)
    requires
        r0.push_outcome(x, pushed, r1),
    ensures
        pushed is Err <==> r0@.len() == r0.spec_capacity(),
        pushed is Ok ==> r1@.len() == r0@.len() + 1 && r1@.last() == x && r1@.drop_last() == r0@,
{
    if pushed is Ok {
        assert(r0@.push(x).drop_last() =~= r0@);
    }
}

/// Every element that `push_slice` reports is queued, in the slice's order,
/// behind the elements that were queued before; it reports as many as fit,
/// and all of the slice when there is room for it.
pub proof fn law_push_slice_queues_what_it_reports<T>(
    r0: Ring<T>,
    xs: Seq<T>,
    pushed: Result<usize, PushError>,
    r1: Ring<T>,
)
    requires
        r0.push_slice_outcome(xs, pushed, r1),
    ensures
        pushed matches Ok(n) ==> {
            &&& n <= xs.len()
            &&& n <= r0.spec_capacity() - r0@.len()
            &&& (n == xs.len() || r1@.len() == r0.spec_capacity())
            &&& r1@.len() == r0@.len() + n
            &&& r1@.subrange(0, r0@.len() as int) == r0@
            &&& forall|i: int| 0 <= i < n ==> r1@[r0@.len() + i] == xs[i]
        },
        pushed is Err ==> r0@.len() == r0.spec_capacity() && r1@ == r0@,
{
    if let Ok(n) = pushed {
        assert(r1@.subrange(0, r0@.len() as int) =~= r0@);
    }
}

/// `pop_slice` hands out the oldest elements in order: what it wrote to the
/// front of the slice, followed by what stays queued, is what was queued, and
/// the rest of the slice is untouched.
pub proof fn law_pop_slice_conserves<T>(
    r0: Ring<T>,
    given: Seq<T>,
    popped: Result<usize, PopError>,
    r1: Ring<T>,
    filled: Seq<T>,
)
    requires
        r0.pop_slice_outcome(given, popped, r1, filled),
    ensures
        popped matches Ok(n) ==> {
            &&& n == min_int(given.len() as int, r0@.len() as int)
            &&& filled.len() == given.len()
            &&& filled.subrange(0, n as int) + r1@ == r0@
            &&& filled.subrange(n as int, filled.len() as int) == given.subrange(
                n as int,
                given.len() as int,
            )
        },
        popped is Err ==> r0@.len() == 0 && r1@ == r0@ && filled == given,
{
    if let Ok(n) = popped {
        assert(filled.subrange(0, n as int) =~= r0@.subrange(0, n as int));
        assert(filled.subrange(0, n as int) + r1@ =~= r0@);
        assert(filled.subrange(n as int, filled.len() as int) =~= given.subrange(
            n as int,
            given.len() as int,
        ));
    }
}

/// A read access that reports `n` consumed elements removes exactly the `n`
/// oldest ones: the length drops by `n` and the read position moves `n`
/// slots forward; the elements left queued are those after the first `n`,
/// as the accessor left the ones it was handed.
pub proof fn law_pop_access_consumes_exactly<T, R, E>(
    r0: Ring<T>,
    handed: Seq<T>,
    res: Result<(usize, R), E>,
    r: Result<Result<(usize, R), E>, PopAccessError>,
    r1: Ring<T>,
)
    requires
        r0.finish_pop_outcome(handed, res, r, r1),
        handed.len() == r0@.len(),
    ensures
        r matches Ok(Ok((n, _))) ==> {
            &&& n <= r0@.len()
            &&& r1@.len() + n == r0@.len()
            &&& r1.head_index() == (r0.head_index() + n) % r0.slot_count()
            &&& r1@ == handed.subrange(n as int, handed.len() as int)
        },
        r is Err ==> r1@ == r0@,
        r matches Ok(Err(_)) ==> r1@ == r0@,
{
    if let Ok(Ok((n, _))) = r {
        let front = handed.subrange(n as int, handed.len() as int);
        let base = r0@.subrange(n as int, r0@.len() as int);
        assert(front.subrange(0, front.len() as int) + base.subrange(front.len() as int, base.len() as int)
            =~= front);
    }
}

} // verus!
