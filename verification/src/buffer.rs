//! A buffer shared by one producer and one consumer.
//!
//! The queue lives under a `std::sync::Mutex`, which each handle holds only
//! while it reads or changes the queue (the access methods release it while
//! the caller's accessor runs). The mutex is opaque to Verus, so nothing here
//! proves that the queue under it has the capacity the buffer was created
//! with (the positions and counts handed out are capped at that capacity,
//! which never changes them), and what an operation finds depends on what
//! the other handle did before: the
//! contracts here say what holds whatever that was, and the contracts of
//! `Ring` say what each operation does to the queue it finds. The locks of
//! vstd carry an invariant but never drop what they hold, and a `Drop`
//! implementation may not acquire them; with one of them, the elements still
//! queued when the last handle goes away would never be dropped.
use vstd::prelude::*;

use std::sync::{Arc, Mutex};

use crate::error::{PopAccessError, PopError, PushAccessError, PushError};
use crate::model::min_int;
use crate::ring::{filled_with_default, Ring};
use crate::sync::{guarded, lock};

verus! {

/// A bounded queue that is split into a `Producer` and a `Consumer`.
#[verifier::reject_recursive_types(T)]
pub struct RingBuffer<T> {
    capacity: usize,
    ring: Mutex<Ring<T>>,
}

/// The handle that adds elements.
#[verifier::reject_recursive_types(T)]
pub struct Producer<T> {
    pub rb: Arc<RingBuffer<T>>,
}

/// The handle that removes elements.
#[verifier::reject_recursive_types(T)]
pub struct Consumer<T> {
    pub rb: Arc<RingBuffer<T>>,
}

impl<T> RingBuffer<T> {
    /// The capacity the buffer was created with.
    pub closed spec fn spec_capacity(&self) -> int {
        self.capacity as int
    }

    /// Creates an empty buffer able to hold `capacity` elements.
    pub fn new(capacity: usize) -> (r: Self)
        requires
            capacity < usize::MAX,
        ensures
            r.spec_capacity() == capacity,
    {
        RingBuffer { capacity, ring: Mutex::new(Ring::new(capacity)) }
    }

    /// The greatest number of elements the buffer can hold.
    pub fn capacity(&self) -> (r: usize)
        ensures
            r == self.spec_capacity(),
    {
        self.capacity
    }

    /// Splits the buffer into its two handles, which share it.
    pub fn split(self) -> (r: (Producer<T>, Consumer<T>))
        ensures
            *r.0.rb == self,
            *r.1.rb == self,
    {
        let shared = Arc::new(self);
        let other = shared.clone();
        (Producer { rb: shared }, Consumer { rb: other })
    }
}

/// Reads the read position and the write position of the shared queue, in
/// that order.
///
/// Each is a slot index, at most the capacity. The queue under the lock was
/// created with this buffer's capacity and no operation changes that, but the
/// lock hides the queue from Verus, so each value is also capped at the
/// capacity here; the cap never changes a value.
pub fn head_tail<T>(rb: &RingBuffer<T>) -> (r: (usize, usize))
    ensures
        r.0 <= rb.spec_capacity(),
        r.1 <= rb.spec_capacity(),
{
    let mut guard = lock(&rb.ring);
    let ring = guarded(&mut guard);
    (at_most(ring.head(), rb.capacity), at_most(ring.tail(), rb.capacity))
}

/// `v`, capped at `bound`.
fn at_most(v: usize, bound: usize) -> (r: usize)
    ensures
        r == min_int(v as int, bound as int),
{
    if v <= bound {
        v
    } else {
        bound
    }
}

impl<T> Producer<T> {
    /// The greatest number of elements the buffer can hold.
    pub fn capacity(&self) -> (r: usize)
        ensures
            r == self.rb.spec_capacity(),
    {
        self.rb.capacity()
    }

    /// The number of queued elements, as last seen; at most the capacity
    /// (see `head_tail` on the cap).
    pub fn len(&self) -> (r: usize)
        ensures
            r <= self.rb.spec_capacity(),
    {
        let mut guard = lock(&self.rb.ring);
        let ring = guarded(&mut guard);
        at_most(ring.len(), self.rb.capacity)
    }

    /// The number of elements that can still be pushed, as last seen; at
    /// most the capacity (see `head_tail` on the cap).
    pub fn remaining(&self) -> (r: usize)
        ensures
            r <= self.rb.spec_capacity(),
    {
        let mut guard = lock(&self.rb.ring);
        let ring = guarded(&mut guard);
        at_most(ring.remaining(), self.rb.capacity)
    }

    /// Whether no element is queued, as last seen.
    pub fn is_empty(&self) -> bool {
        let mut guard = lock(&self.rb.ring);
        let ring = guarded(&mut guard);
        ring.is_empty()
    }

    /// Whether the buffer is full, as last seen.
    pub fn is_full(&self) -> bool {
        let mut guard = lock(&self.rb.ring);
        let ring = guarded(&mut guard);
        ring.is_full()
    }

    /// Appends `elem`, or gives it back when the buffer is full.
    ///
    /// The result and the change are those of one `Ring::push` on the queue
    /// found under the lock; since the lock hides that queue, the contract
    /// says so of some queue state.
    pub fn push(&mut self, elem: T) -> (r: Result<(), (PushError, T)>)
        ensures
            r matches Err((_, e)) ==> e == elem,
            exists|before: Ring<T>, after: Ring<T>| #[trigger] before.push_outcome(elem, r, after),
    {
        let mut guard = lock(&self.rb.ring);
        let ring = guarded(&mut guard);
        let ghost before = *ring;
        let r = ring.push(elem);
        assert(before.push_outcome(elem, r, *ring));
        r
    }

    /// Appends the first elements of `elems`, as many as fit; refuses when
    /// the buffer is full.
    pub fn push_slice(&mut self, elems: &[T]) -> (r: Result<usize, PushError>)
        where
            T: Copy,
        ensures
            r matches Ok(n) ==> n <= elems@.len() && (elems@.len() > 0 ==> n > 0),
            exists|before: Ring<T>, after: Ring<T>| #[trigger] before.push_slice_outcome(
                elems@,
                r,
                after,
            ),
    {
        let mut guard = lock(&self.rb.ring);
        let ring = guarded(&mut guard);
        let ghost before = *ring;
        let r = ring.push_slice(elems);
        assert(before.push_slice_outcome(elems@, r, *ring));
        r
    }

    /// Lets `f` write new elements into the vacant part of the buffer, as
    /// `Ring::push_access` does.
    ///
    /// The buffer is not locked while `f` runs: the consumer may pop in the
    /// meantime, which only adds room after the slots handed to `f`.
    pub fn push_access<R, E, F>(&mut self, f: F) -> (r: Result<Result<(usize, R), E>, PushAccessError>)
        where
            T: Copy + Default,
            F: FnOnce(&mut [T], &mut [T]) -> Result<(usize, R), E>,
        requires
            forall|a: &mut [T], b: &mut [T]| f.requires((a, b)),
        ensures
            r == Err::<Result<(usize, R), E>, PushAccessError>(PushAccessError::Full) || exists|
                a: &mut [T],
                b: &mut [T],
                res: Result<(usize, R), E>,
            |
                #[trigger] f.ensures((a, b), res) && a@.len() > 0 && match res {
                    Err(e) => r == Ok::<Result<(usize, R), E>, PushAccessError>(Err(e)),
                    Ok((n, x)) => {
                        &&& r == Ok::<Result<(usize, R), E>, PushAccessError>(Ok((n, x))) || r
                            == Err::<Result<(usize, R), E>, PushAccessError>(
                            PushAccessError::BadLen,
                        )
                        &&& n > final(a)@.len() + final(b)@.len() ==> r == Err::<
                            Result<(usize, R), E>,
                            PushAccessError,
                        >(PushAccessError::BadLen)
                    },
                },
    {
        // Only the ranges are taken under the lock: the default values, which
        // may come from the caller's code, are made after it is released.
        let ranges = {
            let mut guard = lock(&self.rb.ring);
            let ring = guarded(&mut guard);
            ring.vacant_ranges()
        };
        match ranges {
            Err(e) => Err(e),
            Ok((a, b)) => {
                let mut left: Vec<T> = filled_with_default(a.1 - a.0);
                let mut right: Vec<T> = filled_with_default(b.1 - b.0);
                let res = f(left.as_mut_slice(), right.as_mut_slice());
                let mut guard = lock(&self.rb.ring);
                let ring = guarded(&mut guard);
                ring.finish_push_access(left.as_slice(), right.as_slice(), res)
            },
        }
    }
}

impl<T> Consumer<T> {
    /// The greatest number of elements the buffer can hold.
    pub fn capacity(&self) -> (r: usize)
        ensures
            r == self.rb.spec_capacity(),
    {
        self.rb.capacity()
    }

    /// The number of queued elements, as last seen; at most the capacity
    /// (see `head_tail` on the cap).
    pub fn len(&self) -> (r: usize)
        ensures
            r <= self.rb.spec_capacity(),
    {
        let mut guard = lock(&self.rb.ring);
        let ring = guarded(&mut guard);
        at_most(ring.len(), self.rb.capacity)
    }

    /// The number of elements that can still be pushed, as last seen; at
    /// most the capacity (see `head_tail` on the cap).
    pub fn remaining(&self) -> (r: usize)
        ensures
            r <= self.rb.spec_capacity(),
    {
        let mut guard = lock(&self.rb.ring);
        let ring = guarded(&mut guard);
        at_most(ring.remaining(), self.rb.capacity)
    }

    /// Whether no element is queued, as last seen.
    pub fn is_empty(&self) -> bool {
        let mut guard = lock(&self.rb.ring);
        let ring = guarded(&mut guard);
        ring.is_empty()
    }

    /// Whether the buffer is full, as last seen.
    pub fn is_full(&self) -> bool {
        let mut guard = lock(&self.rb.ring);
        let ring = guarded(&mut guard);
        ring.is_full()
    }

    /// Removes and returns the oldest element, if there is one.
    ///
    /// The result and the change are those of one `Ring::pop` on the queue
    /// found under the lock; since the lock hides that queue, the contract
    /// says so of some queue state.
    pub fn pop(&mut self) -> (r: Result<T, PopError>)
        ensures
            exists|before: Ring<T>, after: Ring<T>| #[trigger] before.pop_outcome(r, after),
    {
        let mut guard = lock(&self.rb.ring);
        let ring = guarded(&mut guard);
        let ghost before = *ring;
        let r = ring.pop();
        assert(before.pop_outcome(r, *ring));
        r
    }

    /// Moves the oldest elements into the front of `elems`, as many as fit;
    /// refuses when the buffer is empty.
    pub fn pop_slice(&mut self, elems: &mut [T]) -> (r: Result<usize, PopError>)
        where
            T: Copy,
        ensures
            match r {
                Ok(n) => {
                    &&& n <= old(elems)@.len()
                    &&& (old(elems)@.len() > 0 ==> n > 0)
                    &&& final(elems)@.len() == old(elems)@.len()
                    &&& final(elems)@.subrange(n as int, old(elems)@.len() as int) == old(
                        elems,
                    )@.subrange(n as int, old(elems)@.len() as int)
                },
                Err(_) => final(elems)@ == old(elems)@,
            },
            exists|before: Ring<T>, after: Ring<T>| #[trigger] before.pop_slice_outcome(
                old(elems)@,
                r,
                after,
                final(elems)@,
            ),
    {
        let mut guard = lock(&self.rb.ring);
        let ring = guarded(&mut guard);
        let ghost given = elems@;
        let ghost before = *ring;
        let r = ring.pop_slice(elems);
        assert(before.pop_slice_outcome(given, r, *ring, elems@));
        proof {
            if let Ok(n) = r {
                assert(elems@.subrange(n as int, given.len() as int) =~= given.subrange(
                    n as int,
                    given.len() as int,
                ));
            }
        }
        r
    }

    /// Lets `f` read the queued elements and consume the oldest of them, as
    /// `Ring::pop_access` does.
    ///
    /// The buffer is not locked while `f` runs: the producer may push in the
    /// meantime, which only adds elements after the ones handed to `f`.
    pub fn pop_access<R, E, F>(&mut self, f: F) -> (r: Result<Result<(usize, R), E>, PopAccessError>)
        where
            T: Copy,
            F: FnOnce(&mut [T], &mut [T]) -> Result<(usize, R), E>,
        requires
            forall|a: &mut [T], b: &mut [T]| f.requires((a, b)),
        ensures
            r == Err::<Result<(usize, R), E>, PopAccessError>(PopAccessError::Empty) || exists|
                a: &mut [T],
                b: &mut [T],
                res: Result<(usize, R), E>,
            |
                #[trigger] f.ensures((a, b), res) && a@.len() > 0 && match res {
                    Err(e) => r == Ok::<Result<(usize, R), E>, PopAccessError>(Err(e)),
                    Ok((n, x)) => {
                        &&& r == Ok::<Result<(usize, R), E>, PopAccessError>(Ok((n, x))) || r
                            == Err::<Result<(usize, R), E>, PopAccessError>(
                            PopAccessError::BadLen,
                        )
                        &&& n > final(a)@.len() + final(b)@.len() ==> r == Err::<
                            Result<(usize, R), E>,
                            PopAccessError,
                        >(PopAccessError::BadLen)
                    },
                } && exists|before: Ring<T>, after: Ring<T>| #[trigger] before.finish_pop_outcome(
                    final(a)@ + final(b)@,
                    res,
                    r,
                    after,
                ),
    {
        let parts = {
            let mut guard = lock(&self.rb.ring);
            let ring = guarded(&mut guard);
            ring.occupied_parts()
        };
        match parts {
            Err(e) => Err(e),
            Ok((mut left, mut right)) => {
                let res = f(left.as_mut_slice(), right.as_mut_slice());
                let mut guard = lock(&self.rb.ring);
                let ring = guarded(&mut guard);
                let ghost before = *ring;
                let r = ring.finish_pop_access(left.as_slice(), right.as_slice(), res);
                assert(before.finish_pop_outcome(left@ + right@, res, r, *ring));
                r
            },
        }
    }
}

} // verus!
