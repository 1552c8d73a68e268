use vstd::prelude::*;

verus! {

/// Failures of the IPv4 layer.
#[derive(Debug, Clone, Copy, PartialEq, Eq, Structural)]
pub enum Error {
    InvalidVersion,
    InvalidHeaderLen,
    InvalidTotalLen,
    InvalidChecksum,
    InvalidOptionLen,
    NonFragmentablePacket,
    TryAgainLater,
}

} // verus!
