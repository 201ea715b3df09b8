//! A fixed-capacity FIFO ring buffer, verified with Verus.
//!
//! The storage holds one slot more than the capacity, so that the read
//! position (`head`) and the write position (`tail`) coincide exactly when the
//! buffer is empty.
pub mod model;
pub mod error;
pub mod ring;
pub mod laws;
pub mod sync;
pub mod buffer;
pub mod dropper;

pub use buffer::{head_tail, Consumer, Producer, RingBuffer};
pub use dropper::Dropper;
pub use error::{PopAccessError, PopError, PushAccessError, PushError};
pub use ring::Ring;
