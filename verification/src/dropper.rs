//! A value that counts its own drops, for observing when a buffer releases
//! the elements it holds.
use vstd::prelude::*;

use std::cell::Cell;

verus! {

/// `std::cell::Cell`, whose contents Verus does not see.
#[verifier::external_type_specification]
#[verifier::external_body]
#[verifier::reject_recursive_types(T)]
pub struct ExCell<T: ?Sized>(Cell<T>);

/// Calls `Cell::get`. Nothing is claimed of the result: the cell may be
/// shared with other code that sets it.
#[verifier::external_body]
fn cell_get(c: &Cell<i32>) -> i32
    opens_invariants none
    no_unwind
{
    c.get()
}

/// Calls `Cell::set`, storing `v` in `c`.
#[verifier::external_body]
fn cell_set(c: &Cell<i32>, v: i32)
    opens_invariants none
    no_unwind
{
    c.set(v)
}

/// Adds one to the counter it refers to when it is dropped.
#[derive(Debug)]
pub struct Dropper<'a> {
    cnt: &'a Cell<i32>,
}

impl<'a> Dropper<'a> {
    /// The counter this value adds to.
    pub closed spec fn counter(&self) -> &'a Cell<i32> {
        self.cnt
    }

    /// A value that will count its drop in `c`.
    pub fn new(c: &'a Cell<i32>) -> (r: Self)
        ensures
            r.counter() == c,
    {
        Dropper { cnt: c }
    }
}

impl<'a> Drop for Dropper<'a> {
    /// Adds one to the counter, which stops at `i32::MAX`.
    fn drop(&mut self)
        opens_invariants none
        no_unwind
    {
        let v = cell_get(self.cnt);
        if v < i32::MAX {
            cell_set(self.cnt, v + 1);
        }
    }
}

} // verus!
