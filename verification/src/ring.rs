//! The buffer itself: a queue of at most `capacity` elements stored in a
//! vector of `capacity + 1` slots, read at `head` and written at `tail`.
use vstd::prelude::*;

use crate::error::{PopAccessError, PopError, PushAccessError, PushError};
use crate::laws::{
    law_dist_is_mod, law_free_spans_cover, law_pos_is_mod, law_steps_accumulate, law_used_spans_cover,
};
use crate::model::{free_spans, min_int, overlay, ring_dist, ring_pos, span_len, used_spans};

verus! {

/// A first-in first-out queue of bounded capacity.
///
/// Its view is the sequence of the queued elements, oldest first.
pub struct Ring<T> {
    data: Vec<Option<T>>,
    head: usize,
    tail: usize,
}

impl<T> Ring<T> {
    /// Every slot between `head` (included) and `tail` (excluded) holds an element.
    #[verifier::type_invariant]
    spec fn inv(&self) -> bool {
        let n = self.data@.len() as int;
        &&& n >= 1
        &&& self.head < n
        &&& self.tail < n
        &&& forall|k: int|
            0 <= k < ring_dist(self.head as int, self.tail as int, n) ==> (#[trigger] self.data@[ring_pos(
                self.head as int,
                k,
                n,
            )]) is Some
    }

    /// The greatest number of elements the buffer can hold.
    pub closed spec fn spec_capacity(&self) -> int {
        self.data@.len() - 1
    }

    /// The number of storage slots, one more than the capacity.
    pub open spec fn slot_count(&self) -> int {
        self.spec_capacity() + 1
    }

    /// The slot from which the next element is popped.
    pub closed spec fn head_index(&self) -> int {
        self.head as int
    }

    /// The slot into which the next element is pushed.
    pub closed spec fn tail_index(&self) -> int {
        self.tail as int
    }

    /// The queued elements, oldest first.
    pub closed spec fn items(&self) -> Seq<T> {
        let n = self.data@.len() as int;
        Seq::new(
            ring_dist(self.head as int, self.tail as int, n) as nat,
            |k: int| self.data@[ring_pos(self.head as int, k, n)]->0,
        )
    }
}

impl<T> View for Ring<T> {
    type V = Seq<T>;

    open spec fn view(&self) -> Seq<T> {
        self.items()
    }
}

impl<T> Ring<T> {
    /// What `push(elem)` does: on `self` it returns `r` and leaves `after`.
    pub open spec fn push_outcome(self, elem: T, r: Result<(), (PushError, T)>, after: Self) -> bool {
        &&& self@.len() <= self.spec_capacity()
        &&& after.spec_capacity() == self.spec_capacity()
        &&& after.head_index() == self.head_index()
        &&& (r is Ok <==> self@.len() < self.spec_capacity())
        &&& match r {
            Ok(()) => {
                &&& after@ == self@.push(elem)
                &&& after.tail_index() == (self.tail_index() + 1) % self.slot_count()
            },
            Err((kind, e)) => {
                &&& kind == PushError::Full
                &&& e == elem
                &&& after@ == self@
                &&& after.tail_index() == self.tail_index()
            },
        }
    }

    /// What `pop()` does: on `self` it returns `r` and leaves `after`.
    pub open spec fn pop_outcome(self, r: Result<T, PopError>, after: Self) -> bool {
        &&& after.spec_capacity() == self.spec_capacity()
        &&& after.tail_index() == self.tail_index()
        &&& (r is Ok <==> self@.len() > 0)
        &&& match r {
            Ok(x) => {
                &&& x == self@[0]
                &&& after@ == self@.drop_first()
                &&& after.head_index() == (self.head_index() + 1) % self.slot_count()
            },
            Err(kind) => {
                &&& kind == PopError::Empty
                &&& after@ == self@
                &&& after.head_index() == self.head_index()
            },
        }
    }

    /// What `push_slice(elems)` does: on `self` it returns `r` and leaves
    /// `after`.
    pub open spec fn push_slice_outcome(
        self,
        elems: Seq<T>,
        r: Result<usize, PushError>,
        after: Self,
    ) -> bool {
        &&& after.spec_capacity() == self.spec_capacity()
        &&& after.head_index() == self.head_index()
        &&& (r is Err <==> self@.len() == self.spec_capacity())
        &&& match r {
            Ok(n) => {
                &&& n == min_int(elems.len() as int, self.spec_capacity() - self@.len())
                &&& after@ == self@ + elems.subrange(0, n as int)
                &&& after.tail_index() == (self.tail_index() + n) % self.slot_count()
            },
            Err(kind) => {
                &&& kind == PushError::Full
                &&& after@ == self@
                &&& after.tail_index() == self.tail_index()
            },
        }
    }

    /// What `pop_slice` does: on `self`, with a slice holding `given`, it
    /// returns `r`, leaves `after` and leaves `filled` in the slice.
    pub open spec fn pop_slice_outcome(
        self,
        given: Seq<T>,
        r: Result<usize, PopError>,
        after: Self,
        filled: Seq<T>,
    ) -> bool {
        &&& after.spec_capacity() == self.spec_capacity()
        &&& after.tail_index() == self.tail_index()
        &&& (r is Err <==> self@.len() == 0)
        &&& match r {
            Ok(n) => {
                &&& n == min_int(given.len() as int, self@.len() as int)
                &&& after@ == self@.subrange(n as int, self@.len() as int)
                &&& filled == self@.subrange(0, n as int) + given.subrange(n as int, given.len() as int)
                &&& after.head_index() == (self.head_index() + n) % self.slot_count()
            },
            Err(kind) => {
                &&& kind == PopError::Empty
                &&& after@ == self@
                &&& filled == given
                &&& after.head_index() == self.head_index()
            },
        }
    }

    /// What `finish_pop_access` does when the accessor was handed `handed`
    /// (the two slices one after the other, as it left them) and returned
    /// `res`: it returns `r` and leaves `after`.
    pub open spec fn finish_pop_outcome<R, E>(
        self,
        handed: Seq<T>,
        res: Result<(usize, R), E>,
        r: Result<Result<(usize, R), E>, PopAccessError>,
        after: Self,
    ) -> bool {
        &&& after.spec_capacity() == self.spec_capacity()
        &&& after.tail_index() == self.tail_index()
        &&& match res {
            Err(e) => {
                &&& r == Ok::<Result<(usize, R), E>, PopAccessError>(Err(e))
                &&& after@ == self@
                &&& after.head_index() == self.head_index()
            },
            Ok((n, x)) => if n > self@.len() || n > handed.len() {
                &&& r == Err::<Result<(usize, R), E>, PopAccessError>(PopAccessError::BadLen)
                &&& after@ == self@
                &&& after.head_index() == self.head_index()
            } else {
                &&& r == Ok::<Result<(usize, R), E>, PopAccessError>(Ok((n, x)))
                &&& after@ == overlay(
                    handed.subrange(n as int, handed.len() as int),
                    self@.subrange(n as int, self@.len() as int),
                )
                &&& after.head_index() == (self.head_index() + n) % self.slot_count()
            },
        }
    }
}

/// The slot after `i` on a ring of `slots` slots.
fn next_slot(i: usize, slots: usize) -> (r: usize)
    requires
        i < slots,
    ensures
        r == ring_pos(i as int, 1, slots as int),
        r == (i + 1) % (slots as int),
{
    proof {
        law_pos_is_mod(i as int, 1, slots as int);
    }
    if i + 1 == slots {
        0
    } else {
        i + 1
    }
}

impl<T> Ring<T> {
    /// Creates an empty buffer able to hold `capacity` elements.
    pub fn new(capacity: usize) -> (r: Self)
        requires
            capacity < usize::MAX,
        ensures
            r@ == Seq::<T>::empty(),
            r.spec_capacity() == capacity,
            r.head_index() == 0,
            r.tail_index() == 0,
    {
        let mut data: Vec<Option<T>> = Vec::new();
        let mut i: usize = 0;
        while i <= capacity
            invariant
                i <= capacity + 1,
                capacity < usize::MAX,
                data@.len() == i,
            decreases capacity + 1 - i,
        {
            data.push(None);
            i = i + 1;
        }
        let r = Ring { data, head: 0, tail: 0 };
        assert(r@ =~= Seq::<T>::empty());
        r
    }

    /// The greatest number of elements the buffer can hold.
    pub fn capacity(&self) -> (r: usize)
        ensures
            r == self.spec_capacity(),
            r + 1 == self.slot_count(),
    {
        proof {
            use_type_invariant(self);
        }
        self.data.len() - 1
    }

    /// The number of queued elements.
    pub fn len(&self) -> (r: usize)
        ensures
            r == self@.len(),
            r <= self.spec_capacity(),
            r == (self.tail_index() - self.head_index()) % self.slot_count(),
    {
        proof {
            use_type_invariant(self);
            self.lemma_shape();
        }
        let n = self.data.len();
        if self.head <= self.tail {
            self.tail - self.head
        } else {
            n - self.head + self.tail
        }
    }

    /// The number of elements that can still be pushed.
    pub fn remaining(&self) -> (r: usize)
        ensures
            r == self.spec_capacity() - self@.len(),
    {
        let c = self.capacity();
        let l = self.len();
        c - l
    }

    /// Whether no element is queued.
    pub fn is_empty(&self) -> (r: bool)
        ensures
            r == (self@.len() == 0),
            r == (self.head_index() == self.tail_index()),
    {
        proof {
            use_type_invariant(self);
        }
        self.head == self.tail
    }

    /// Whether the buffer holds as many elements as its capacity.
    pub fn is_full(&self) -> (r: bool)
        ensures
            r == (self@.len() == self.spec_capacity()),
            r == ((self.tail_index() + 1) % self.slot_count() == self.head_index()),
    {
        proof {
            use_type_invariant(self);
            self.lemma_shape();
        }
        next_slot(self.tail, self.data.len()) == self.head
    }

    /// The slot from which the next element is popped.
    pub fn head(&self) -> (r: usize)
        ensures
            r == self.head_index(),
            r < self.slot_count(),
    {
        proof {
            use_type_invariant(self);
        }
        self.head
    }

    /// The slot into which the next element is pushed.
    pub fn tail(&self) -> (r: usize)
        ensures
            r == self.tail_index(),
            r < self.slot_count(),
    {
        proof {
            use_type_invariant(self);
        }
        self.tail
    }

    /// The facts that tie the view to the two positions.
    proof fn lemma_shape(&self)
        requires
            self.inv(),
        ensures
            self@.len() == ring_dist(self.head as int, self.tail as int, self.slot_count()),
            self@.len() <= self.spec_capacity(),
            self@.len() == (self.tail - self.head) % self.slot_count(),
            (self.tail + 1) % self.slot_count() == ring_pos(self.tail as int, 1, self.slot_count()),
            (self@.len() == self.spec_capacity()) == (ring_pos(self.tail as int, 1, self.slot_count())
                == self.head),
    {
        law_dist_is_mod(self.head as int, self.tail as int, self.slot_count());
        law_pos_is_mod(self.tail as int, 1, self.slot_count());
    }

    /// Appends `elem`; the buffer must not be full.
    fn enqueue(&mut self, elem: T)
        requires
            old(self)@.len() < old(self).spec_capacity(),
        ensures
            final(self)@ == old(self)@.push(elem),
            final(self).slot_count() == old(self).slot_count(),
            final(self).head_index() == old(self).head_index(),
            final(self).tail_index() == (old(self).tail_index() + 1) % old(self).slot_count(),
    {
        proof {
            use_type_invariant(&*self);
            self.lemma_shape();
        }
        let ghost old_items = self@;
        let ghost n = self.slot_count();
        let t = self.tail;
        let next = next_slot(t, self.data.len());
        self.data[t] = Some(elem);
        self.tail = next;
        proof {
            let h = self.head as int;
            assert(ring_pos(h, old_items.len() as int, n) == t);
            assert forall|k: int| 0 <= k < old_items.len() implies ring_pos(h, k, n) != t by {}
            assert(self@ =~= old_items.push(elem));
        }
    }

    /// Removes and returns the oldest element; the buffer must not be empty.
    fn dequeue(&mut self) -> (r: T)
        requires
            old(self)@.len() > 0,
        ensures
            r == old(self)@[0],
            final(self)@ == old(self)@.drop_first(),
            final(self).slot_count() == old(self).slot_count(),
            final(self).tail_index() == old(self).tail_index(),
            final(self).head_index() == (old(self).head_index() + 1) % old(self).slot_count(),
    {
        proof {
            use_type_invariant(&*self);
            self.lemma_shape();
        }
        let ghost old_items = self@;
        let ghost n = self.slot_count();
        let ghost old_data = self.data@;
        let h = self.head;
        assert(old_data[ring_pos(h as int, 0, n)] is Some);
        let next = next_slot(h, self.data.len());
        proof {
            assert forall|k: int| 0 <= k < ring_dist(next as int, self.tail as int, n) implies ring_pos(
                next as int,
                k,
                n,
            ) == ring_pos(h as int, k + 1, n) && #[trigger] old_data[ring_pos(next as int, k, n)] is Some by {
                assert(old_data[ring_pos(h as int, k + 1, n)] is Some);
            }
        }
        self.head = next;
        let slot = self.data[h].take();
        proof {
            assert forall|k: int| 0 <= k < ring_dist(next as int, self.tail as int, n) implies ring_pos(
                next as int,
                k,
                n,
            ) != h by {}
            assert(self@ =~= old_items.drop_first());
        }
        slot.unwrap()
    }

    /// Appends `elem`, or gives it back when the buffer is full.
    pub fn push(&mut self, elem: T) -> (r: Result<(), (PushError, T)>)
        ensures
            old(self).push_outcome(elem, r, *final(self)),
    {
        proof {
            use_type_invariant(&*self);
            self.lemma_shape();
        }
        if self.is_full() {
            Err((PushError::Full, elem))
        } else {
            self.enqueue(elem);
            Ok(())
        }
    }

    /// Removes and returns the oldest element, if there is one.
    pub fn pop(&mut self) -> (r: Result<T, PopError>)
        ensures
            old(self).pop_outcome(r, *final(self)),
    {
        if self.is_empty() {
            Err(PopError::Empty)
        } else {
            Ok(self.dequeue())
        }
    }

    /// Replaces the element `k` places after the oldest one by `v`.
    fn set_item(&mut self, k: usize, v: T)
        requires
            k < old(self)@.len(),
        ensures
            final(self)@ == old(self)@.update(k as int, v),
            final(self).spec_capacity() == old(self).spec_capacity(),
            final(self).head_index() == old(self).head_index(),
            final(self).tail_index() == old(self).tail_index(),
    {
        proof {
            use_type_invariant(&*self);
            self.lemma_shape();
        }
        let ghost old_items = self@;
        let ghost n = self.slot_count();
        let ghost h = self.head as int;
        let len = self.data.len();
        let p = if k < len - self.head {
            self.head + k
        } else {
            k - (len - self.head)
        };
        assert(p == ring_pos(h, k as int, n));
        store(&mut self.data, p, v);
        proof {
            assert forall|j: int| 0 <= j < old_items.len() && j != k implies ring_pos(h, j, n) != p by {}
            assert(self@ =~= old_items.update(k as int, v));
        }
    }

    /// The element `k` places after the oldest one.
    fn item_at(&self, k: usize) -> (r: T)
        where
            T: Copy,
        requires
            k < self@.len(),
        ensures
            r == self@[k as int],
    {
        proof {
            use_type_invariant(self);
            self.lemma_shape();
        }
        let n = self.data.len();
        let p = if k < n - self.head {
            self.head + k
        } else {
            k - (n - self.head)
        };
        assert(p == ring_pos(self.head as int, k as int, n as int));
        self.data[p].unwrap()
    }

    /// Appends the first elements of `elems`, as many as fit; refuses when
    /// the buffer is full.
    pub fn push_slice(&mut self, elems: &[T]) -> (r: Result<usize, PushError>)
        where
            T: Copy,
        ensures
            old(self).push_slice_outcome(elems@, r, *final(self)),
    {
        if self.is_full() {
            return Err(PushError::Full);
        }
        let free = self.remaining();
        let n = if elems.len() < free {
            elems.len()
        } else {
            free
        };
        let ghost start = self@;
        let ghost t0 = self.tail_index();
        let ghost slots = self.slot_count();
        proof {
            use_type_invariant(&*self);
            vstd::arithmetic::div_mod::lemma_small_mod(t0 as nat, slots as nat);
        }
        let mut i: usize = 0;
        while i < n
            invariant
                i <= n,
                n <= elems@.len(),
                start.len() + n <= self.spec_capacity(),
                self.spec_capacity() == old(self).spec_capacity(),
                self.slot_count() == slots,
                slots > 0,
                self.head_index() == old(self).head_index(),
                self@ == start + elems@.subrange(0, i as int),
                self.tail_index() == (t0 + i) % slots,
            decreases n - i,
        {
            self.enqueue(elems[i]);
            proof {
                law_steps_accumulate(t0, i as int, slots);
                assert(start + elems@.subrange(0, i as int).push(elems@[i as int]) =~= start
                    + elems@.subrange(0, i + 1));
            }
            i = i + 1;
        }
        Ok(n)
    }

    /// Moves the oldest elements into the front of `elems`, as many as fit;
    /// refuses when the buffer is empty.
    pub fn pop_slice(&mut self, elems: &mut [T]) -> (r: Result<usize, PopError>)
        where
            T: Copy,
        ensures
            old(self).pop_slice_outcome(old(elems)@, r, *final(self), final(elems)@),
    {
        if self.is_empty() {
            return Err(PopError::Empty);
        }
        let held = self.len();
        let n = if elems.len() < held {
            elems.len()
        } else {
            held
        };
        let ghost start = self@;
        let ghost given = elems@;
        let ghost h0 = self.head_index();
        let ghost slots = self.slot_count();
        proof {
            use_type_invariant(&*self);
            vstd::arithmetic::div_mod::lemma_small_mod(h0 as nat, slots as nat);
        }
        let mut i: usize = 0;
        while i < n
            invariant
                i <= n,
                n <= start.len(),
                n <= given.len(),
                elems@.len() == given.len(),
                self.spec_capacity() == old(self).spec_capacity(),
                self.slot_count() == slots,
                slots > 0,
                self.tail_index() == old(self).tail_index(),
                self@ == start.subrange(i as int, start.len() as int),
                elems@ == start.subrange(0, i as int) + given.subrange(i as int, given.len() as int),
                self.head_index() == (h0 + i) % slots,
            decreases n - i,
        {
            let x = self.dequeue();
            elems[i] = x;
            proof {
                law_steps_accumulate(h0, i as int, slots);
                assert(elems@ =~= start.subrange(0, i + 1) + given.subrange(i + 1, given.len() as int));
                assert(self@ =~= start.subrange(i + 1, start.len() as int));
            }
            i = i + 1;
        }
        Ok(n)
    }

    /// The vacant slots, in filling order, as two half-open index ranges;
    /// refuses when the buffer is full.
    pub fn vacant_ranges(&self) -> (r: Result<((usize, usize), (usize, usize)), PushAccessError>)
        ensures
            r is Err <==> self@.len() == self.spec_capacity(),
            match r {
                Ok((a, b)) => {
                    &&& ((a.0 as int, a.1 as int), (b.0 as int, b.1 as int)) == free_spans(
                        self.head_index(),
                        self.tail_index(),
                        self.slot_count(),
                    )
                    &&& a.0 <= a.1 && b.0 <= b.1
                    &&& (a.1 - a.0) + (b.1 - b.0) == self.spec_capacity() - self@.len()
                    &&& a.1 - a.0 > 0
                    &&& forall|j: int|
                        0 <= j < a.1 - a.0 ==> #[trigger] ring_pos(self.tail_index(), j, self.slot_count())
                            == a.0 + j
                    &&& forall|j: int|
                        a.1 - a.0 <= j < (a.1 - a.0) + (b.1 - b.0) ==> #[trigger] ring_pos(
                            self.tail_index(),
                            j,
                            self.slot_count(),
                        ) == b.0 + (j - (a.1 - a.0))
                },
                Err(e) => e == PushAccessError::Full,
            },
    {
        proof {
            use_type_invariant(self);
            self.lemma_shape();
            if self@.len() < self.spec_capacity() {
                law_free_spans_cover(self.head as int, self.tail as int, self.slot_count());
            }
        }
        let head = self.head;
        let tail = self.tail;
        let n = self.data.len();
        if tail >= head {
            if head > 0 {
                Ok(((tail, n), (0, head - 1)))
            } else if tail < n - 1 {
                Ok(((tail, n - 1), (0, 0)))
            } else {
                Err(PushAccessError::Full)
            }
        } else if tail < head - 1 {
            Ok(((tail, head - 1), (0, 0)))
        } else {
            Err(PushAccessError::Full)
        }
    }

    /// The occupied slots, oldest first, as two half-open index ranges;
    /// refuses when the buffer is empty.
    pub fn occupied_ranges(&self) -> (r: Result<((usize, usize), (usize, usize)), PopAccessError>)
        ensures
            r is Err <==> self@.len() == 0,
            match r {
                Ok((a, b)) => {
                    &&& ((a.0 as int, a.1 as int), (b.0 as int, b.1 as int)) == used_spans(
                        self.head_index(),
                        self.tail_index(),
                        self.slot_count(),
                    )
                    &&& a.0 <= a.1 && b.0 <= b.1
                    &&& (a.1 - a.0) + (b.1 - b.0) == self@.len()
                    &&& a.1 - a.0 > 0
                    &&& forall|j: int|
                        0 <= j < a.1 - a.0 ==> #[trigger] ring_pos(self.head_index(), j, self.slot_count())
                            == a.0 + j
                    &&& forall|j: int|
                        a.1 - a.0 <= j < (a.1 - a.0) + (b.1 - b.0) ==> #[trigger] ring_pos(
                            self.head_index(),
                            j,
                            self.slot_count(),
                        ) == b.0 + (j - (a.1 - a.0))
                },
                Err(e) => e == PopAccessError::Empty,
            },
    {
        proof {
            use_type_invariant(self);
            self.lemma_shape();
            law_used_spans_cover(self.head as int, self.tail as int, self.slot_count());
        }
        let head = self.head;
        let tail = self.tail;
        let n = self.data.len();
        if head < tail {
            Ok(((head, tail), (0, 0)))
        } else if head > tail {
            Ok(((head, n), (0, tail)))
        } else {
            Err(PopAccessError::Empty)
        }
    }

    /// Room for writing new elements: two vectors of default values as long
    /// as the two vacant ranges; refuses when the buffer is full.
    pub fn vacant_parts(&self) -> (r: Result<(Vec<T>, Vec<T>), PushAccessError>)
        where
            T: Default,
        ensures
            r is Err <==> self@.len() == self.spec_capacity(),
            match r {
                Ok((left, right)) => {
                    let spans = free_spans(self.head_index(), self.tail_index(), self.slot_count());
                    &&& left@.len() == span_len(spans.0)
                    &&& right@.len() == span_len(spans.1)
                    &&& left@.len() + right@.len() == self.spec_capacity() - self@.len()
                    &&& left@.len() > 0
                },
                Err(e) => e == PushAccessError::Full,
            },
    {
        match self.vacant_ranges() {
            Err(e) => Err(e),
            Ok((a, b)) => Ok((filled_with_default(a.1 - a.0), filled_with_default(b.1 - b.0))),
        }
    }

    /// Copies of the queued elements, oldest first, split as the two
    /// occupied ranges; refuses when the buffer is empty.
    pub fn occupied_parts(&self) -> (r: Result<(Vec<T>, Vec<T>), PopAccessError>)
        where
            T: Copy,
        ensures
            r is Err <==> self@.len() == 0,
            match r {
                Ok((left, right)) => {
                    let spans = used_spans(self.head_index(), self.tail_index(), self.slot_count());
                    &&& left@.len() == span_len(spans.0)
                    &&& right@.len() == span_len(spans.1)
                    &&& left@ + right@ == self@
                    &&& left@.len() > 0
                },
                Err(e) => e == PopAccessError::Empty,
            },
    {
        match self.occupied_ranges() {
            Err(e) => Err(e),
            Ok((a, b)) => {
                let l0 = a.1 - a.0;
                let total = l0 + (b.1 - b.0);
                let mut left: Vec<T> = Vec::new();
                let mut right: Vec<T> = Vec::new();
                let mut k: usize = 0;
                while k < total
                    invariant
                        k <= total,
                        total == self@.len(),
                        k <= l0 ==> left@ == self@.subrange(0, k as int) && right@.len() == 0,
                        k > l0 ==> left@ == self@.subrange(0, l0 as int) && right@ == self@.subrange(
                            l0 as int,
                            k as int,
                        ),
                    decreases total - k,
                {
                    let x = self.item_at(k);
                    if k < l0 {
                        left.push(x);
                    } else {
                        right.push(x);
                    }
                    k = k + 1;
                    assert(k <= l0 ==> left@ =~= self@.subrange(0, k as int));
                    assert(k > l0 ==> right@ =~= self@.subrange(l0 as int, k as int));
                }
                assert(left@ + right@ =~= self@);
                Ok((left, right))
            },
        }
    }

    /// Completes a write access: when the accessor reports `n` written
    /// elements and there is room for them, appends the first `n` elements of
    /// `left` followed by `right`.
    pub fn finish_push_access<R, E>(&mut self, left: &[T], right: &[T], res: Result<(usize, R), E>) -> (r: Result<
        Result<(usize, R), E>,
        PushAccessError,
    >)
        where
            T: Copy,
        ensures
            final(self).spec_capacity() == old(self).spec_capacity(),
            final(self).head_index() == old(self).head_index(),
            match res {
                Err(e) => {
                    &&& r == Ok::<Result<(usize, R), E>, PushAccessError>(Err(e))
                    &&& final(self)@ == old(self)@
                    &&& final(self).tail_index() == old(self).tail_index()
                },
                Ok((n, x)) => if n > old(self).spec_capacity() - old(self)@.len() || n > left@.len()
                    + right@.len() {
                    &&& r == Err::<Result<(usize, R), E>, PushAccessError>(PushAccessError::BadLen)
                    &&& final(self)@ == old(self)@
                    &&& final(self).tail_index() == old(self).tail_index()
                } else {
                    &&& r == Ok::<Result<(usize, R), E>, PushAccessError>(Ok((n, x)))
                    &&& final(self)@ == old(self)@ + (left@ + right@).subrange(0, n as int)
                    &&& final(self).tail_index() == (old(self).tail_index() + n)
                        % old(self).slot_count()
                },
            },
    {
        match res {
            Err(e) => Ok(Err(e)),
            Ok((n, x)) => {
                let free = self.remaining();
                let l0 = left.len();
                if n > free || (n > l0 && n - l0 > right.len()) {
                    return Err(PushAccessError::BadLen);
                }
                let ghost start = self@;
                let ghost written = left@ + right@;
                let ghost t0 = self.tail_index();
                let ghost slots = self.slot_count();
                proof {
                    use_type_invariant(&*self);
                    vstd::arithmetic::div_mod::lemma_small_mod(t0 as nat, slots as nat);
                }
                let mut i: usize = 0;
                while i < n
                    invariant
                        i <= n,
                        n <= written.len(),
                        written == left@ + right@,
                        l0 == left@.len(),
                        start.len() + n <= self.spec_capacity(),
                        self.spec_capacity() == old(self).spec_capacity(),
                        self.slot_count() == slots,
                        slots > 0,
                        self.head_index() == old(self).head_index(),
                        self@ == start + written.subrange(0, i as int),
                        self.tail_index() == (t0 + i) % slots,
                    decreases n - i,
                {
                    let item = if i < l0 {
                        left[i]
                    } else {
                        right[i - l0]
                    };
                    assert(item == written[i as int]);
                    self.enqueue(item);
                    proof {
                        law_steps_accumulate(t0, i as int, slots);
                        assert(start + written.subrange(0, i as int).push(written[i as int]) =~= start
                            + written.subrange(0, i + 1));
                    }
                    i = i + 1;
                }
                Ok(Ok((n, x)))
            },
        }
    }

    /// Completes a read access in which the accessor was handed `left` and
    /// `right`: when it reports `n` consumed elements, no more than it was
    /// handed and no more than are queued, removes the `n` oldest ones.
    pub fn finish_pop_access<R, E>(&mut self, left: &[T], right: &[T], res: Result<(usize, R), E>) -> (r: Result<
        Result<(usize, R), E>,
        PopAccessError,
    >)
        where
            T: Copy,
        ensures
            old(self).finish_pop_outcome(left@ + right@, res, r, *final(self)),
            final(self).spec_capacity() == old(self).spec_capacity(),
            final(self).tail_index() == old(self).tail_index(),
            match res {
                Err(e) => {
                    &&& r == Ok::<Result<(usize, R), E>, PopAccessError>(Err(e))
                    &&& final(self)@ == old(self)@
                    &&& final(self).head_index() == old(self).head_index()
                },
                Ok((n, x)) => if n > old(self)@.len() || n > left@.len() + right@.len() {
                    &&& r == Err::<Result<(usize, R), E>, PopAccessError>(PopAccessError::BadLen)
                    &&& final(self)@ == old(self)@
                    &&& final(self).head_index() == old(self).head_index()
                } else {
                    &&& r == Ok::<Result<(usize, R), E>, PopAccessError>(Ok((n, x)))
                    &&& final(self)@ == overlay(
                        (left@ + right@).subrange(n as int, (left@.len() + right@.len()) as int),
                        old(self)@.subrange(n as int, old(self)@.len() as int),
                    )
                    &&& final(self).head_index() == (old(self).head_index() + n)
                        % old(self).slot_count()
                },
            },
    {
        match res {
            Err(e) => Ok(Err(e)),
            Ok((n, x)) => {
                let l0 = left.len();
                if n > self.len() || (n > l0 && n - l0 > right.len()) {
                    return Err(PopAccessError::BadLen);
                }
                let ghost start = self@;
                let ghost h0 = self.head_index();
                let ghost slots = self.slot_count();
                proof {
                    use_type_invariant(&*self);
                    vstd::arithmetic::div_mod::lemma_small_mod(h0 as nat, slots as nat);
                }
                let mut i: usize = 0;
                while i < n
                    invariant
                        i <= n,
                        n <= start.len(),
                        self.spec_capacity() == old(self).spec_capacity(),
                        self.slot_count() == slots,
                        slots > 0,
                        self.tail_index() == old(self).tail_index(),
                        self@ == start.subrange(i as int, start.len() as int),
                        self.head_index() == (h0 + i) % slots,
                    decreases n - i,
                {
                    let _ = self.dequeue();
                    proof {
                        law_steps_accumulate(h0, i as int, slots);
                        assert(self@ =~= start.subrange(i + 1, start.len() as int));
                    }
                    i = i + 1;
                }
                // The elements handed out but not consumed stay queued, with
                // whatever the accessor wrote into them.
                let ghost base = self@;
                let ghost written = left@ + right@;
                let queued = self.len();
                // As many of the handed-out, unconsumed elements as are queued.
                let k = if n <= l0 {
                    let a = l0 - n;
                    if a >= queued {
                        queued
                    } else if right.len() >= queued - a {
                        queued
                    } else {
                        a + right.len()
                    }
                } else {
                    let b = right.len() - (n - l0);
                    if b >= queued {
                        queued
                    } else {
                        b
                    }
                };
                let ghost front = written.subrange(n as int, written.len() as int);
                assert(k == min_int(front.len() as int, base.len() as int));
                let ghost h1 = self.head_index();
                let mut j: usize = 0;
                while j < k
                    invariant
                        j <= k,
                        k <= base.len(),
                        k <= front.len(),
                        k == min_int(front.len() as int, base.len() as int),
                        n + base.len() <= usize::MAX,
                        n + front.len() == written.len(),
                        written == left@ + right@,
                        l0 == left@.len(),
                        front == written.subrange(n as int, written.len() as int),
                        self.spec_capacity() == old(self).spec_capacity(),
                        self.tail_index() == old(self).tail_index(),
                        self.head_index() == h1,
                        self@ == front.subrange(0, j as int) + base.subrange(j as int, base.len() as int),
                    decreases k - j,
                {
                    let at = n + j;
                    let v = if at < l0 {
                        left[at]
                    } else {
                        right[at - l0]
                    };
                    assert(v == front[j as int]);
                    self.set_item(j, v);
                    assert(self@ =~= front.subrange(0, j + 1) + base.subrange(j + 1, base.len() as int));
                    j = j + 1;
                }
                assert(self@ =~= overlay(front, base));
                Ok(Ok((n, x)))
            },
        }
    }

    /// Lets `f` write new elements into the vacant part of the buffer.
    ///
    /// `f` receives the vacant room as two slices (see `vacant_parts`) and
    /// returns how many elements it wrote, at the front of the first slice
    /// and then of the second, with a value of its own. Those elements are
    /// appended, unless `f` reports more than it was given room for.
    /// Refuses without calling `f` when the buffer is full.
    pub fn push_access<R, E, F>(&mut self, f: F) -> (r: Result<Result<(usize, R), E>, PushAccessError>)
        where
            T: Copy + Default,
            F: FnOnce(&mut [T], &mut [T]) -> Result<(usize, R), E>,
        requires
            forall|a: &mut [T], b: &mut [T]| f.requires((a, b)),
        ensures
            final(self).spec_capacity() == old(self).spec_capacity(),
            final(self).head_index() == old(self).head_index(),
            (r == Err::<Result<(usize, R), E>, PushAccessError>(PushAccessError::Full)) <==> old(
                self,
            )@.len() == old(self).spec_capacity(),
            match r {
                Ok(Ok((n, _))) => {
                    &&& n <= old(self).spec_capacity() - old(self)@.len()
                    &&& final(self)@.len() == old(self)@.len() + n
                    &&& final(self)@.subrange(0, old(self)@.len() as int) == old(self)@
                    &&& final(self).tail_index() == (old(self).tail_index() + n)
                        % old(self).slot_count()
                },
                _ => {
                    &&& final(self)@ == old(self)@
                    &&& final(self).tail_index() == old(self).tail_index()
                },
            },
            old(self)@.len() < old(self).spec_capacity() ==> exists|
                a: &mut [T],
                b: &mut [T],
                res: Result<(usize, R), E>,
            |
                #[trigger] f.ensures((a, b), res) && {
                    let spans = free_spans(
                        old(self).head_index(),
                        old(self).tail_index(),
                        old(self).slot_count(),
                    );
                    &&& a@.len() == span_len(spans.0)
                    &&& b@.len() == span_len(spans.1)
                    &&& match res {
                        Err(e) => r == Ok::<Result<(usize, R), E>, PushAccessError>(Err(e)),
                        Ok((n, x)) => if n > old(self).spec_capacity() - old(self)@.len() || n
                            > final(a)@.len() + final(b)@.len() {
                            r == Err::<Result<(usize, R), E>, PushAccessError>(
                                PushAccessError::BadLen,
                            )
                        } else {
                            &&& r == Ok::<Result<(usize, R), E>, PushAccessError>(Ok((n, x)))
                            &&& final(self)@ == old(self)@ + (final(a)@ + final(b)@).subrange(
                                0,
                                n as int,
                            )
                        },
                    }
                },
    {
        match self.vacant_parts() {
            Err(e) => Err(e),
            Ok((mut left, mut right)) => {
                let res = f(left.as_mut_slice(), right.as_mut_slice());
                let ghost before = self@;
                let r = self.finish_push_access(left.as_slice(), right.as_slice(), res);
                proof {
                    if let Ok(Ok((n, _))) = r {
                        assert(self@.subrange(0, before.len() as int) =~= before);
                    }
                }
                r
            },
        }
    }

    /// Lets `f` read the queued elements and consume the oldest of them.
    ///
    /// `f` receives copies of the queued elements, oldest first, as two
    /// slices (see `occupied_parts`) and returns how many of them it
    /// consumed, with a value of its own. That many elements are removed,
    /// unless `f` reports more than it was given. Refuses without calling `f`
    /// when the buffer is empty.
    pub fn pop_access<R, E, F>(&mut self, f: F) -> (r: Result<Result<(usize, R), E>, PopAccessError>)
        where
            T: Copy,
            F: FnOnce(&mut [T], &mut [T]) -> Result<(usize, R), E>,
        requires
            forall|a: &mut [T], b: &mut [T]| f.requires((a, b)),
        ensures
            final(self).spec_capacity() == old(self).spec_capacity(),
            final(self).tail_index() == old(self).tail_index(),
            (r == Err::<Result<(usize, R), E>, PopAccessError>(PopAccessError::Empty)) <==> old(
                self,
            )@.len() == 0,
            match r {
                Ok(Ok((n, _))) => {
                    &&& n <= old(self)@.len()
                    &&& final(self)@.len() == old(self)@.len() - n
                    &&& final(self).head_index() == (old(self).head_index() + n)
                        % old(self).slot_count()
                },
                _ => {
                    &&& final(self)@ == old(self)@
                    &&& final(self).head_index() == old(self).head_index()
                },
            },
            old(self)@.len() > 0 ==> exists|
                a: &mut [T],
                b: &mut [T],
                res: Result<(usize, R), E>,
            |
                #[trigger] f.ensures((a, b), res) && {
                    let spans = used_spans(
                        old(self).head_index(),
                        old(self).tail_index(),
                        old(self).slot_count(),
                    );
                    &&& a@.len() == span_len(spans.0)
                    &&& b@.len() == span_len(spans.1)
                    &&& a@ + b@ == old(self)@
                    &&& match res {
                        Err(e) => r == Ok::<Result<(usize, R), E>, PopAccessError>(Err(e)),
                        Ok((n, x)) => if n > old(self)@.len() || n > final(a)@.len()
                            + final(b)@.len() {
                            r == Err::<Result<(usize, R), E>, PopAccessError>(
                                PopAccessError::BadLen,
                            )
                        } else {
                            &&& r == Ok::<Result<(usize, R), E>, PopAccessError>(Ok((n, x)))
                            &&& final(self)@ == overlay(
                                (final(a)@ + final(b)@).subrange(
                                    n as int,
                                    (final(a)@.len() + final(b)@.len()) as int,
                                ),
                                old(self)@.subrange(n as int, old(self)@.len() as int),
                            )
                        },
                    }
                },
    {
        match self.occupied_parts() {
            Err(e) => Err(e),
            Ok((mut left, mut right)) => {
                let res = f(left.as_mut_slice(), right.as_mut_slice());
                self.finish_pop_access(left.as_slice(), right.as_slice(), res)
            },
        }
    }
}

/// Stores `x` in slot `i`.
fn store<T>(slots: &mut Vec<Option<T>>, i: usize, x: T)
    requires
        i < old(slots)@.len(),
    ensures
        final(slots)@ == old(slots)@.update(i as int, Some(x)),
    no_unwind
{
    slots[i] = Some(x);
}

/// A vector of `len` default values.
pub(crate) fn filled_with_default<T: Default>(len: usize) -> (r: Vec<T>)
    ensures
        r@.len() == len,
{
    let mut v: Vec<T> = Vec::new();
    let mut i: usize = 0;
    while i < len
        invariant
            i <= len,
            v@.len() == i,
        decreases len - i,
    {
        v.push(T::default());
        i = i + 1;
    }
    v
}

} // verus!
