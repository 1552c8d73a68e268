use vstd::prelude::*;

verus! {

/// Failures of the network-device layer.
#[derive(Debug, Clone, Copy, PartialEq, Eq, Structural)]
pub enum Error {
    NameTooLong,
}

} // verus!
