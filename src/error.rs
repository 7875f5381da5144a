use vstd::prelude::*;

verus! {

/// Why a fallible operation on a [`crate::CircularBuffer`] did not take place.
/// The buffer is left unchanged in either case.
#[derive(Debug, PartialEq, Eq, Structural)]
pub enum Error {
    /// A read found no element to hand out.
    EmptyBuffer,
    /// A write found no free slot.
    FullBuffer,
}

} // verus!
