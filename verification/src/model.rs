//! Index arithmetic of a ring of `slots` positions, stated over integers.
use vstd::prelude::*;

verus! {

/// The position reached from `start` after `k` steps forward on a ring of
/// `slots` positions (for `0 <= start, k < slots`).
pub open spec fn ring_pos(start: int, k: int, slots: int) -> int {
    if start + k < slots {
        start + k
    } else {
        start + k - slots
    }
}

/// The number of forward steps from `from` to `to` on a ring of `slots`
/// positions (for `0 <= from, to < slots`).
pub open spec fn ring_dist(from: int, to: int, slots: int) -> int {
    if from <= to {
        to - from
    } else {
        to + slots - from
    }
}

/// The vacant slots of a ring read at `head` and written at `tail`, in the
/// order in which they are filled, as two half-open index ranges. One slot
/// before `head` always stays vacant, so that a full ring is told apart from
/// an empty one.
pub open spec fn free_spans(head: int, tail: int, slots: int) -> ((int, int), (int, int)) {
    if tail >= head {
        if head > 0 {
            ((tail, slots), (0, head - 1))
        } else {
            ((tail, slots - 1), (0, 0))
        }
    } else {
        ((tail, head - 1), (0, 0))
    }
}

/// The occupied slots of a ring read at `head` and written at `tail`, oldest
/// first, as two half-open index ranges.
pub open spec fn used_spans(head: int, tail: int, slots: int) -> ((int, int), (int, int)) {
    if head <= tail {
        ((head, tail), (0, 0))
    } else {
        ((head, slots), (0, tail))
    }
}

/// The number of indices in the half-open range `span`.
pub open spec fn span_len(span: (int, int)) -> int {
    span.1 - span.0
}

/// `base` with its first elements replaced by those of `front`, as many as
/// both have.
pub open spec fn overlay<T>(front: Seq<T>, base: Seq<T>) -> Seq<T> {
    let k = min_int(front.len() as int, base.len() as int);
    front.subrange(0, k) + base.subrange(k, base.len() as int)
}

/// The smaller of two integers.
pub open spec fn min_int(a: int, b: int) -> int {
    if a <= b {
        a
    } else {
        b
    }
}

} // verus!
