use vstd::prelude::*;

verus! {

/// Failures of the TCP layer.
#[derive(Debug, Clone, Copy, PartialEq, Eq, Structural)]
pub enum Error {
    InvalidDataOffset,
}

} // verus!
