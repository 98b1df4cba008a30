//! Addresses: their wire form, their bech32 text, and signature checks.
use vstd::prelude::*;
use crate::error::Error;
use bech32::{FromBase32, ToBase32};
use blake2::digest::{Update, VariableOutput};

verus! {

/// The type byte of an Ed25519 address.
pub const ED25519_ADDRESS_TYPE: u8 = 0;

/// Bytes of an Ed25519 address: a BLAKE2b-256 digest of a public key.
pub const ED25519_ADDRESS_LENGTH: usize = 32;

/// Bytes of a packed address: its type byte, then its bytes.
pub const ADDRESS_PACKED_LEN: usize = 33;

/// The BLAKE2b digest of `data`, 32 bytes long.
pub uninterp spec fn blake2b_256_of(data: Seq<u8>) -> Seq<u8>;

/// Whether `sig` is a valid Ed25519 signature of `msg` under public key `pk`.
pub uninterp spec fn ed25519_accepts(pk: Seq<u8>, sig: Seq<u8>, msg: Seq<u8>) -> bool;

/// The bech32 text of `data`, grouped into 5-bit words, under the
/// human-readable part `hrp`.
pub uninterp spec fn bech32_text(hrp: Seq<char>, data: Seq<u8>) -> Seq<char>;

/// The bytes that a bech32 text carries, or none where the text is not valid
/// bech32 or its 5-bit words do not regroup into bytes.
pub uninterp spec fn bech32_payload(text: Seq<char>) -> Option<Seq<u8>>;

/// A human-readable part that bech32 encodes under: 1 to 83 characters,
/// each printable ASCII from `!` to `~`, not mixing lower and upper case.
pub open spec fn hrp_ok(hrp: Seq<char>) -> bool {
    &&& 1 <= hrp.len() <= 83
    &&& forall|i: int| 0 <= i < hrp.len() ==> 33 <= (#[trigger] hrp[i]) as u32 <= 126
    &&& !((exists|i: int| 0 <= i < hrp.len() && 'a' <= #[trigger] hrp[i] <= 'z') && (exists|
        i: int,
    |
        0 <= i < hrp.len() && 'A' <= #[trigger] hrp[i] <= 'Z'))
}

/// Relies on blake2's VarBlake2b with a 32-byte output: the digest of `data`.
#[verifier::external_body]
fn blake2b_256(data: &[u8]) -> (r: [u8; 32])
    ensures
        r@ == blake2b_256_of(data@),
{
    let mut hasher = blake2::VarBlake2b::new(32).unwrap();
    hasher.update(data);
    let mut out = [0u8; 32];
    hasher.finalize_variable(|res| out.copy_from_slice(res));
    out
}

/// Relies on ed25519_zebra's VerificationKey::try_from and verify: whether
/// `sig` signs `msg` under `pk`; a key that does not decode accepts nothing.
#[verifier::external_body]
fn ed25519_verify(pk: &[u8; 32], sig: &[u8; 64], msg: &[u8]) -> (r: bool)
    ensures
        r == ed25519_accepts(pk@, sig@, msg@),
{
    match ed25519_zebra::VerificationKey::try_from(*pk) {
        Ok(key) => key.verify(&ed25519_zebra::Signature::from(*sig), msg).is_ok(),
        Err(_) => false,
    }
}

/// Relies on bech32::encode of the 5-bit words of `data` (ToBase32); it
/// fails exactly where the human-readable part is refused.
#[verifier::external_body]
fn bech32_encode(hrp: &str, data: &[u8]) -> (r: Option<String>)
    ensures
        r is Some <==> hrp_ok(hrp@),
        r is Some ==> r->Some_0@ == bech32_text(hrp@, data@),
{
    bech32::encode(hrp, data.to_base32()).ok()
}

/// Relies on bech32::decode and on Vec<u8>::from_base32 of the words it
/// yields: the bytes that `text` carries.
#[verifier::external_body]
fn bech32_decode(text: &str) -> (r: Option<Vec<u8>>)
    ensures
        r is None <==> bech32_payload(text@) is None,
        r is Some ==> bech32_payload(text@) == Some(r->Some_0@),
{
    match bech32::decode(text) {
        Ok((_hrp, data)) => Vec::<u8>::from_base32(&data).ok(),
        Err(_) => None,
    }
}

/// An Ed25519 address: the BLAKE2b-256 digest of a public key.
#[derive(Clone, Copy, Debug, PartialEq, Eq, Hash, PartialOrd, Ord)]
pub struct Ed25519Address(pub [u8; 32]);

/// An Ed25519 public key and a signature made with it.
#[derive(Clone, Copy, Debug, PartialEq, Eq)]
pub struct Ed25519Signature {
    pub public_key: [u8; 32],
    pub signature: [u8; 64],
}

/// A signature that unlocks an input.
#[derive(Clone, Copy, Debug, PartialEq, Eq)]
pub enum SignatureUnlock {
    Ed25519(Ed25519Signature),
}

/// An address that outputs can be sent to.
#[non_exhaustive]
#[derive(Clone, Copy, Debug, PartialEq, Eq, Hash, PartialOrd, Ord)]
pub enum Address {
    Ed25519(Ed25519Address),
}

impl From<Ed25519Address> for Address {
    fn from(address: Ed25519Address) -> Address {
        Address::Ed25519(address)
    }
}

impl vstd::std_specs::convert::FromSpecImpl<Ed25519Address> for Address {
    open spec fn obeys_from_spec() -> bool {
        true
    }

    open spec fn from_spec(v: Ed25519Address) -> Address {
        Address::Ed25519(v)
    }
}

/// Whether `a` and `b` hold the same bytes.
fn same_bytes(a: &[u8; 32], b: &[u8; 32]) -> (r: bool)
    ensures
        r == (a@ == b@),
{
    let mut i: usize = 0;
    while i < 32
        invariant
            i <= 32,
            forall|k: int| 0 <= k < i ==> a@[k] == b@[k],
        decreases 32 - i,
    {
        if a[i] != b[i] {
            return false;
        }
        i += 1;
    }
    assert(a@ =~= b@);
    true
}

impl Address {
    /// The wire form: the type byte, then the address bytes.
    pub open spec fn packed(&self) -> Seq<u8> {
        match self {
            Address::Ed25519(a) => seq![ED25519_ADDRESS_TYPE] + a.0@,
        }
    }

    /// The address bytes, without the type byte.
    pub fn as_bytes(&self) -> (r: &[u8; 32])
        ensures
            r@ == self.packed().skip(1),
    {
        match self {
            Address::Ed25519(address) => {
                assert(self.packed().skip(1) =~= address.0@);
                &address.0
            },
        }
    }

    /// The bech32 text of the wire form, under the human-readable part `hrp`.
    pub fn to_bech32(&self, hrp: &str) -> (r: String)
        requires
            hrp_ok(hrp@),
        ensures
            r@ == bech32_text(hrp@, self.packed()),
    {
        let bytes = self.pack();
        match bech32_encode(hrp, bytes.as_slice()) {
            Some(text) => text,
            None => String::new(),
        }
    }

    /// The address that a bech32 text carries; fails with `InvalidAddress`
    /// where the text is no bech32, or its bytes are no packed address.
    pub fn try_from_bech32(addr: &str) -> (r: Result<Address, Error>)
        ensures
            reads_bech32(addr@, r),
    {
        match bech32_decode(addr) {
            Some(bytes) => match Address::unpack(bytes.as_slice()) {
                Ok((address, _)) => Ok(address),
                Err(_) => Err(Error::InvalidAddress),
            },
            None => Err(Error::InvalidAddress),
        }
    }

    /// Whether `signature` is valid for `msg` and made with the key that
    /// this address is the digest of.
    pub fn verify(&self, msg: &[u8], signature: &SignatureUnlock) -> (r: bool)
        ensures
            r == match (self, signature) {
                (Address::Ed25519(a), SignatureUnlock::Ed25519(s)) => blake2b_256_of(
                    s.public_key@,
                ) == a.0@ && ed25519_accepts(s.public_key@, s.signature@, msg@),
            },
    {
        match self {
            Address::Ed25519(address) => {
                let SignatureUnlock::Ed25519(signature) = signature;
                let digest = blake2b_256(&signature.public_key);
                if !same_bytes(&digest, &address.0) {
                    return false;
                }
                ed25519_verify(&signature.public_key, &signature.signature, msg)
            },
        }
    }

    /// The address that `s` names: 64 hexadecimal digits of an Ed25519
    /// address, else a bech32 text as `try_from_bech32` reads it.
    pub fn try_from_str(s: &str) -> (r: Result<Address, Error>)
        ensures
            is_hex_address(s@) ==> r is Ok && match r->Ok_0 {
                Address::Ed25519(a) => forall|i: int| 0 <= i < 32 ==> (#[trigger] a.0@[i]) == hex_byte(s@, i),
            },
            !is_hex_address(s@) ==> reads_bech32(s@, r),
    {
        match Ed25519Address::from_hex(s) {
            Some(a) => Ok(Address::Ed25519(a)),
            None => Address::try_from_bech32(s),
        }
    }

    /// The number of bytes that `pack` yields.
    pub fn packed_len(&self) -> (r: usize)
        ensures
            r == self.packed().len(),
    {
        ADDRESS_PACKED_LEN
    }

    /// The wire form: the type byte, then the address bytes.
    pub fn pack(&self) -> (r: Vec<u8>)
        ensures
            r@ == self.packed(),
    {
        match self {
            Address::Ed25519(address) => {
                let mut out: Vec<u8> = Vec::with_capacity(ADDRESS_PACKED_LEN);
                out.push(ED25519_ADDRESS_TYPE);
                let mut i: usize = 0;
                while i < ED25519_ADDRESS_LENGTH
                    invariant
                        i <= 32,
                        out@ == seq![ED25519_ADDRESS_TYPE] + address.0@.take(i as int),
                    decreases 32 - i,
                {
                    out.push(address.0[i]);
                    i += 1;
                    assert(out@ =~= seq![ED25519_ADDRESS_TYPE] + address.0@.take(i as int));
                }
                assert(address.0@.take(32) =~= address.0@);
                out
            },
        }
    }

    /// Reads an address from the front of `bytes`; returns it with the number
    /// of bytes read. Fails on an unknown type byte, or on too few bytes.
    pub fn unpack(bytes: &[u8]) -> (r: Result<(Address, usize), Error>)
        ensures
            r is Ok <==> unpacks(bytes@),
            r is Ok ==> r->Ok_0.1 == 33 && r->Ok_0.0.packed() == bytes@.take(33),
            bytes@.len() == 0 ==> r == Err::<(Address, usize), Error>(Error::UnexpectedEnd),
            bytes@.len() > 0 && bytes@[0] != ED25519_ADDRESS_TYPE ==> r == Err::<
                (Address, usize),
                Error,
            >(Error::InvalidAddressType(bytes@[0])),
            bytes@.len() > 0 && bytes@[0] == ED25519_ADDRESS_TYPE && bytes@.len() < 33 ==> r
                == Err::<(Address, usize), Error>(Error::UnexpectedEnd),
    {
        if bytes.len() == 0 {
            return Err(Error::UnexpectedEnd);
        }
        let t = bytes[0];
        if t != ED25519_ADDRESS_TYPE {
            return Err(Error::InvalidAddressType(t));
        }
        if bytes.len() < ADDRESS_PACKED_LEN {
            return Err(Error::UnexpectedEnd);
        }
        let mut a = [0u8; 32];
        let mut i: usize = 0;
        while i < ED25519_ADDRESS_LENGTH
            invariant
                i <= 32,
                bytes@.len() >= 33,
                a@.len() == 32,
                forall|k: int| 0 <= k < i ==> a@[k] == bytes@[k + 1],
            decreases 32 - i,
        {
            a[i] = bytes[i + 1];
            i += 1;
        }
        let address = Address::Ed25519(Ed25519Address(a));
        assert(address.packed() =~= bytes@.take(33));
        Ok((address, ADDRESS_PACKED_LEN))
    }
}

/// The value of a hexadecimal digit, either case.
pub open spec fn hex_digit(c: char) -> Option<u8> {
    if '0' <= c <= '9' {
        Some((c as u32 - '0' as u32) as u8)
    } else if 'a' <= c <= 'f' {
        Some((c as u32 - 'a' as u32 + 10) as u8)
    } else if 'A' <= c <= 'F' {
        Some((c as u32 - 'A' as u32 + 10) as u8)
    } else {
        None
    }
}

/// Whether `s` is the hexadecimal form of an Ed25519 address: 64 digits.
pub open spec fn is_hex_address(s: Seq<char>) -> bool {
    s.len() == 64 && forall|i: int| 0 <= i < 64 ==> (#[trigger] hex_digit(s[i])) is Some
}

/// The byte that digits `2 * i` and `2 * i + 1` of `s` spell.
pub open spec fn hex_byte(s: Seq<char>, i: int) -> u8 {
    (16 * hex_digit(s[2 * i])->Some_0 + hex_digit(s[2 * i + 1])->Some_0) as u8
}

fn hex_digit_of(c: char) -> (r: Option<u8>)
    ensures
        r == hex_digit(c),
{
    if '0' <= c && c <= '9' {
        Some((c as u32 - '0' as u32) as u8)
    } else if 'a' <= c && c <= 'f' {
        Some((c as u32 - 'a' as u32 + 10) as u8)
    } else if 'A' <= c && c <= 'F' {
        Some((c as u32 - 'A' as u32 + 10) as u8)
    } else {
        None
    }
}

impl Ed25519Address {
    /// The address that 64 hexadecimal digits spell, two digits a byte,
    /// the most significant digit first; none for any other text.
    pub fn from_hex(s: &str) -> (r: Option<Ed25519Address>)
        ensures
            r is Some <==> is_hex_address(s@),
            r is Some ==> forall|i: int| 0 <= i < 32 ==> (#[trigger] r->Some_0.0@[i]) == hex_byte(s@, i),
    {
        let n = s.unicode_len();
        if n != 64 {
            return None;
        }
        let mut a = [0u8; 32];
        let mut i: usize = 0;
        while i < 32
            invariant
                i <= 32,
                s@.len() == 64,
                a@.len() == 32,
                forall|k: int| 0 <= k < 2 * i ==> (#[trigger] hex_digit(s@[k])) is Some,
                forall|k: int| 0 <= k < i ==> (#[trigger] a@[k]) == hex_byte(s@, k),
            decreases 32 - i,
        {
            let hi = hex_digit_of(s.get_char(2 * i));
            let lo = hex_digit_of(s.get_char(2 * i + 1));
            match (hi, lo) {
                (Some(h), Some(l)) => {
                    a[i] = 16 * h + l;
                },
                _ => {
                    return None;
                },
            }
            i += 1;
        }
        Some(Ed25519Address(a))
    }
}

/// Whether `r` is what reading the bech32 text `text` gives: the address
/// packed at the front of the bytes it carries, else `InvalidAddress`.
pub open spec fn reads_bech32(text: Seq<char>, r: Result<Address, Error>) -> bool {
    &&& r is Ok <==> (bech32_payload(text) is Some && unpacks(bech32_payload(text)->Some_0))
    &&& r is Ok ==> r->Ok_0.packed() == bech32_payload(text)->Some_0.take(33)
    &&& r is Err ==> r == Err::<Address, Error>(Error::InvalidAddress)
}

/// Whether `bytes` begin with a packed address: the Ed25519 type byte and
/// at least 32 bytes after it.
pub open spec fn unpacks(bytes: Seq<u8>) -> bool {
    bytes.len() >= 33 && bytes[0] == ED25519_ADDRESS_TYPE
}

} // verus!
