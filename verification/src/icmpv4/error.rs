use vstd::prelude::*;

verus! {

/// Failures of the ICMPv4 layer.
#[derive(Debug, Clone, Copy, PartialEq, Eq, Structural)]
pub enum Error {
    InvalidMessageType,
}

} // verus!
