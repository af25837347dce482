//! The errors the propagation pass can surface. They mark unrecoverable
//! defects in the input or in an earlier pass, not user-facing data errors:
//! the pass aborts and yields no partial result.

use vstd::prelude::*;

verus! {

/// What stopped the pass.
#[derive(Clone, Copy, Debug, PartialEq, Eq, Structural)]
pub enum Error {
    /// A static array access whose known constant index lies at or beyond
    /// the array's size.
    OutOfBounds { index: u64, size: u64 },
    /// A `For` statement reached the pass: loops are unrolled upstream.
    LoopNotUnrolled,
    /// The environment holds a value of the wrong shape for a key's type,
    /// or upstream types disagree.
    TypeInvariant,
}

impl Error {
    /// A short description of the error.
    pub fn message(&self) -> (r: &'static str)
        ensures
            *self is OutOfBounds ==> r@ == "out of bounds index found during static analysis"@,
            *self is LoopNotUnrolled ==> r@
                == "for loop is unexpected, it should have been unrolled"@,
            *self is TypeInvariant ==> r@ == "constants should only store constants"@,
    {
        match self {
            Error::OutOfBounds { .. } => "out of bounds index found during static analysis",
            Error::LoopNotUnrolled => "for loop is unexpected, it should have been unrolled",
            Error::TypeInvariant => "constants should only store constants",
        }
    }
}

} // verus!
