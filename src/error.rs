//! Errors of the ledger entities.
use vstd::prelude::*;

verus! {

/// Why a ledger entity could not be made or read.
#[derive(Clone, Copy, Debug, PartialEq, Eq, Structural)]
pub enum Error {
    /// An amount of zero, or above the total supply.
    InvalidAmount(u64),
    /// A text that names no address.
    InvalidAddress,
    /// An address whose type byte names no known kind.
    InvalidAddressType(u8),
    /// Bytes that end before the entity does.
    UnexpectedEnd,
}

} // verus!
