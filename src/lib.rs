//! A fixed-capacity FIFO ring buffer whose storage is allocated once and
//! reused, with exactly-once delivery of every element it accepts.

mod buffer;
mod error;
pub mod laws;
pub mod model;

pub use buffer::CircularBuffer;
pub use error::Error;
