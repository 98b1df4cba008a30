//! Little-endian integers, as the wire format lays them out.
use vstd::prelude::*;

verus! {

/// The `n` lowest bytes of `v`, least significant first.
pub open spec fn le_bytes(v: nat, n: nat) -> Seq<u8>
    decreases n,
{
    if n == 0 {
        Seq::empty()
    } else {
        seq![(v % 256) as u8] + le_bytes(v / 256, (n - 1) as nat)
    }
}

/// Relies on u64::to_le_bytes: the memory representation of `v` in
/// little-endian byte order.
#[verifier::external_body]
pub(crate) fn u64_to_le(v: u64) -> (r: [u8; 8])
    ensures
        r@ == le_bytes(v as nat, 8),
{
    v.to_le_bytes()
}

/// Relies on u64::from_le_bytes: the integer whose little-endian
/// representation is `b`.
#[verifier::external_body]
pub(crate) fn u64_from_le(b: [u8; 8]) -> (r: u64)
    ensures
        le_bytes(r as nat, 8) == b@,
{
    u64::from_le_bytes(b)
}

} // verus!
