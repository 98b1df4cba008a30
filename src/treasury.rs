//! The treasury output: an amount of tokens held by the treasury.
use vstd::prelude::*;
use crate::bytes::{le_bytes, u64_from_le, u64_to_le};
use crate::error::Error;

verus! {

/// The total token supply: no amount can exceed it.
pub const IOTA_SUPPLY: u64 = 2_779_530_283_277_761;

/// The type byte of a treasury output.
pub const TREASURY_OUTPUT_TYPE: u8 = 2;

/// Bytes of a packed treasury output.
pub const TREASURY_OUTPUT_PACKED_LEN: usize = 8;

/// An output of the treasury, holding a valid amount.
#[derive(Clone, Copy, Debug, PartialEq, Eq, Structural)]
pub struct TreasuryOutput {
    amount: u64,
}

/// An amount that a treasury output can hold.
pub open spec fn valid_amount(amount: u64) -> bool {
    0 < amount <= IOTA_SUPPLY
}

impl TreasuryOutput {
    #[verifier::type_invariant]
    spec fn inv(&self) -> bool {
        valid_amount(self.amount)
    }

    /// The amount held.
    pub closed spec fn spec_amount(&self) -> u64 {
        self.amount
    }

    /// A treasury output of `amount`, which must be positive and at most
    /// the total supply.
    pub fn new(amount: u64) -> (r: Result<TreasuryOutput, Error>)
        ensures
            r is Ok <==> valid_amount(amount),
            r is Ok ==> r->Ok_0.spec_amount() == amount,
            r is Err ==> r == Err::<TreasuryOutput, Error>(Error::InvalidAmount(amount)),
    {
        if amount == 0 || amount > IOTA_SUPPLY {
            return Err(Error::InvalidAmount(amount));
        }
        Ok(TreasuryOutput { amount })
    }

    pub fn amount(&self) -> (r: u64)
        ensures
            r == self.spec_amount(),
            valid_amount(r),
    {
        proof {
            use_type_invariant(self);
        }
        self.amount
    }

    /// The number of bytes that `pack` yields.
    pub fn packed_len(&self) -> (r: usize)
        ensures
            r == 8,
    {
        TREASURY_OUTPUT_PACKED_LEN
    }

    /// The amount as eight little-endian bytes.
    pub fn pack(&self) -> (r: Vec<u8>)
        ensures
            r@ == le_bytes(self.spec_amount() as nat, 8),
    {
        let b = u64_to_le(self.amount);
        let mut out: Vec<u8> = Vec::with_capacity(8);
        let mut i: usize = 0;
        while i < 8
            invariant
                i <= 8,
                b@ == le_bytes(self.amount as nat, 8),
                out@ == b@.take(i as int),
            decreases 8 - i,
        {
            out.push(b[i]);
            i += 1;
            assert(out@ =~= b@.take(i as int));
        }
        assert(b@.take(8) =~= b@);
        out
    }

    /// Reads a treasury output from the front of `bytes`; returns it with
    /// the number of bytes read. Fails on fewer than eight bytes, or on an
    /// amount that `new` refuses.
    pub fn unpack(bytes: &[u8]) -> (r: Result<(TreasuryOutput, usize), Error>)
        ensures
            bytes@.len() < 8 ==> r == Err::<(TreasuryOutput, usize), Error>(Error::UnexpectedEnd),
            bytes@.len() >= 8 ==> (r is Ok <==> exists|a: u64|
                le_bytes(a as nat, 8) == bytes@.take(8) && valid_amount(a)),
            r is Ok ==> r->Ok_0.1 == 8 && le_bytes(r->Ok_0.0.spec_amount() as nat, 8)
                == bytes@.take(8),
            bytes@.len() >= 8 && r is Err ==> exists|a: u64|
                le_bytes(a as nat, 8) == bytes@.take(8) && r == Err::<(TreasuryOutput, usize), Error>(
                    Error::InvalidAmount(a),
                ),
    {
        if bytes.len() < 8 {
            return Err(Error::UnexpectedEnd);
        }
        let b: [u8; 8] = [
            bytes[0],
            bytes[1],
            bytes[2],
            bytes[3],
            bytes[4],
            bytes[5],
            bytes[6],
            bytes[7],
        ];
        assert(b@ =~= bytes@.take(8));
        let amount = u64_from_le(b);
        proof {
            lemma_le_bytes_injective(amount);
        }
        match TreasuryOutput::new(amount) {
            Ok(t) => Ok((t, 8)),
            Err(e) => Err(e),
        }
    }
}

proof fn lemma_le_bytes_unique(v: nat, w: nat, n: nat)
    requires
        le_bytes(v, n) == le_bytes(w, n),
        v < pow256(n),
        w < pow256(n),
    ensures
        v == w,
    decreases n,
{
    if n > 0 {
        assert(le_bytes(v, n)[0] == le_bytes(w, n)[0]);
        assert(le_bytes(v, n)[0] == (v % 256) as u8);
        assert(le_bytes(w, n)[0] == (w % 256) as u8);
        assert(((v % 256) as u8) as nat == v % 256);
        assert(((w % 256) as u8) as nat == w % 256);
        assert(le_bytes(v, n).skip(1) =~= le_bytes(v / 256, (n - 1) as nat));
        assert(le_bytes(w, n).skip(1) =~= le_bytes(w / 256, (n - 1) as nat));
        assert(v / 256 < pow256((n - 1) as nat)) by (nonlinear_arith)
            requires v < pow256(n), pow256(n) == 256 * pow256((n - 1) as nat);
        assert(w / 256 < pow256((n - 1) as nat)) by (nonlinear_arith)
            requires w < pow256(n), pow256(n) == 256 * pow256((n - 1) as nat);
        lemma_le_bytes_unique(v / 256, w / 256, (n - 1) as nat);
        assert(v % 256 == w % 256);
        assert(v == 256 * (v / 256) + v % 256);
        assert(w == 256 * (w / 256) + w % 256);
    }
}

spec fn pow256(n: nat) -> nat
    decreases n,
{
    if n == 0 {
        1
    } else {
        256 * pow256((n - 1) as nat)
    }
}

/// Every `u64` has exactly one eight-byte little-endian form.
proof fn lemma_le_bytes_injective(v: u64)
    ensures
        forall|a: u64| le_bytes(a as nat, 8) == le_bytes(v as nat, 8) ==> a == v,
{
    reveal_with_fuel(pow256, 9);
    assert(pow256(8) == 0x1_0000_0000_0000_0000);
    assert forall|a: u64| le_bytes(a as nat, 8) == le_bytes(v as nat, 8) implies a == v by {
        lemma_le_bytes_unique(a as nat, v as nat, 8);
    }
}

} // verus!
