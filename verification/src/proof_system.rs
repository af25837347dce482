//! The handle for the gadget-standard proof-system backend. Setting up keys,
//! proving, and the message serialization behind them are I/O at the
//! program's edge and stay outside the verified core; the handle itself
//! carries no state.

use vstd::prelude::*;

verus! {

/// The gadget-standard backend. It holds no configuration: every operation
/// it is handed works from its arguments alone.
#[derive(Clone, Copy, Debug, PartialEq, Eq, Structural)]
pub struct ZkInterface {}

impl ZkInterface {
    /// A fresh backend handle.
    pub fn new() -> (r: ZkInterface)
        ensures
            r == (ZkInterface {  }),
    {
        ZkInterface {  }
    }
}

} // verus!
