# ringbuf

A bounded first-in first-out ring buffer for one producer and one consumer,
verified with Verus.

- `src/ring.rs`: `Ring<T>`, the queue itself. It stores at most `capacity`
  elements in `capacity + 1` slots, read at `head` and written at `tail`. Its
  view is the sequence of queued elements, and every operation (`push`, `pop`,
  `push_slice`, `pop_slice`, `push_access`, `pop_access` and the range
  queries) is proved against that view and against the two positions.
- `src/model.rs`: the index arithmetic of the ring, over integers.
- `src/laws.rs`: properties spanning several operations, stated over the
  outcome predicates that `Ring`'s contracts use (first-in first-out order,
  a push on an empty buffer undone by the next pop, a refused push, slice
  round trips) and over the index arithmetic (positions counted modulo the
  slot count, the access ranges covering exactly the vacant or occupied
  slots).
- `src/buffer.rs`: `RingBuffer<T>`, split into a `Producer<T>` and a
  `Consumer<T>` that share the queue under a `std::sync::Mutex`, which is
  opaque to Verus. Where a handle's contract says something, it is what holds
  whatever the other handle did: the capacity, bounds on the positions and
  counts, what is done with an accessor's result. Which element a pop
  returns, and whether the buffer is empty or full, are left to `Ring`'s
  contracts one call down.
- `src/sync.rs`: the trusted declarations for that mutex.
- `src/dropper.rs`: `Dropper`, a value that counts its own drops.
- `src/error.rs`: the error types.

Run Verus on `src/lib.rs` to check the proofs; the tests under `tests/` exercise the compiled crate.
