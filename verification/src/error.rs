//! The ways in which an operation on the buffer can be refused.
use vstd::prelude::*;

verus! {

/// Why an element could not be pushed.
#[derive(Clone, Copy, Debug, PartialEq, Eq, Structural)]
pub enum PushError {
    /// The buffer holds as many elements as its capacity.
    Full,
}

/// Why an element could not be popped.
#[derive(Clone, Copy, Debug, PartialEq, Eq, Structural)]
pub enum PopError {
    /// The buffer holds no element.
    Empty,
}

/// Why direct access to the vacant part of the buffer failed.
#[derive(Clone, Copy, Debug, PartialEq, Eq, Structural)]
pub enum PushAccessError {
    /// The buffer has no vacant slot.
    Full,
    /// The accessor reported more written elements than it was given room for.
    BadLen,
}

/// Why direct access to the occupied part of the buffer failed.
#[derive(Clone, Copy, Debug, PartialEq, Eq, Structural)]
pub enum PopAccessError {
    /// The buffer holds no element.
    Empty,
    /// The accessor reported more read elements than it was given.
    BadLen,
}

} // verus!
