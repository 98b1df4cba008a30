use bee_core::address::{Address, Ed25519Address, Ed25519Signature, SignatureUnlock};
use bee_core::error::Error;
use bee_core::treasury::{TreasuryOutput, IOTA_SUPPLY};

use blake2::digest::{Update, VariableOutput};

fn blake2b_256(data: &[u8]) -> [u8; 32] {
    let mut hasher = blake2::VarBlake2b::new(32).unwrap();
    hasher.update(data);
    let mut out = [0u8; 32];
    hasher.finalize_variable(|res| out.copy_from_slice(res));
    out
}

fn signed(msg: &[u8]) -> (Address, SignatureUnlock) {
    let sk = ed25519_zebra::SigningKey::from([7u8; 32]);
    let vk = ed25519_zebra::VerificationKey::from(&sk);
    let pk: [u8; 32] = vk.into();
    let sig: [u8; 64] = sk.sign(msg).into();
    let address = Address::Ed25519(Ed25519Address(blake2b_256(&pk)));
    (address, SignatureUnlock::Ed25519(Ed25519Signature { public_key: pk, signature: sig }))
}

#[test]
fn treasury_output_amount_bounds() {
    assert_eq!(TreasuryOutput::new(0), Err(Error::InvalidAmount(0)));
    assert_eq!(TreasuryOutput::new(IOTA_SUPPLY + 1), Err(Error::InvalidAmount(IOTA_SUPPLY + 1)));
    assert_eq!(TreasuryOutput::new(1).unwrap().amount(), 1);
    assert_eq!(TreasuryOutput::new(IOTA_SUPPLY).unwrap().amount(), IOTA_SUPPLY);
    assert_eq!(IOTA_SUPPLY, 2_779_530_283_277_761);
}

#[test]
fn treasury_output_pack_round_trip() {
    let t = TreasuryOutput::new(0x0102_0304_0506).unwrap();
    assert_eq!(t.packed_len(), 8);
    let bytes = t.pack();
    assert_eq!(bytes, vec![6, 5, 4, 3, 2, 1, 0, 0]);
    let mut longer = bytes.clone();
    longer.push(9);
    assert_eq!(TreasuryOutput::unpack(&longer), Ok((t, 8)));
}

#[test]
fn treasury_output_unpack_errors() {
    assert_eq!(TreasuryOutput::unpack(&[1, 2, 3]), Err(Error::UnexpectedEnd));
    assert_eq!(TreasuryOutput::unpack(&[0; 8]), Err(Error::InvalidAmount(0)));
    assert_eq!(
        TreasuryOutput::unpack(&[0xff; 8]),
        Err(Error::InvalidAmount(u64::MAX))
    );
}

#[test]
fn address_pack_unpack() {
    let address = Address::Ed25519(Ed25519Address([0xab; 32]));
    assert_eq!(address.packed_len(), 33);
    let bytes = address.pack();
    assert_eq!(bytes[0], 0);
    assert_eq!(&bytes[1..], &[0xab; 32]);
    assert_eq!(Address::unpack(&bytes), Ok((address, 33)));
    assert_eq!(address.as_bytes(), &[0xab; 32]);
    assert_eq!(Address::from(Ed25519Address([0xab; 32])), address);
}

#[test]
fn address_unpack_errors() {
    assert_eq!(Address::unpack(&[]), Err(Error::UnexpectedEnd));
    assert_eq!(Address::unpack(&[1; 33]), Err(Error::InvalidAddressType(1)));
    assert_eq!(Address::unpack(&[0; 10]), Err(Error::UnexpectedEnd));
}

#[test]
fn address_bech32_round_trip() {
    let address = Address::Ed25519(Ed25519Address([0x52; 32]));
    let text = address.to_bech32("iota");
    assert!(text.starts_with("iota1q"));
    assert_eq!(text.len(), 4 + 1 + 53 + 6);
    assert_eq!(Address::try_from_bech32(&text), Ok(address));
    assert_eq!(Address::try_from_str(&text), Ok(address));
    let other = Address::Ed25519(Ed25519Address([0x53; 32]));
    assert_ne!(other.to_bech32("iota"), text);
}

#[test]
fn address_bech32_errors() {
    assert_eq!(Address::try_from_bech32("not an address"), Err(Error::InvalidAddress));
    let text = Address::Ed25519(Ed25519Address([1; 32])).to_bech32("iota");
    let mut broken = text.clone();
    broken.pop();
    broken.push(if text.ends_with('q') { 'p' } else { 'q' });
    assert_eq!(Address::try_from_bech32(&broken), Err(Error::InvalidAddress));
}

#[test]
fn address_from_hex() {
    let hex = "52fdfc072182654f163f5f0f9a621d729566c74d10037c4d7bbb0407d1e2c649";
    let address = Address::try_from_str(hex).unwrap();
    assert_eq!(address.as_bytes()[0], 0x52);
    assert_eq!(address.as_bytes()[1], 0xfd);
    assert_eq!(address.as_bytes()[31], 0x49);
    let upper = hex.to_uppercase();
    assert_eq!(Address::try_from_str(&upper), Ok(address));
    assert_eq!(Ed25519Address::from_hex(&hex[..62]), None);
    assert_eq!(Address::try_from_str("zz"), Err(Error::InvalidAddress));
}

#[test]
fn address_verify_signature() {
    let msg = b"transaction essence";
    let (address, unlock) = signed(msg);
    assert!(address.verify(msg, &unlock));
    assert!(!address.verify(b"another essence", &unlock));
    let stranger = Address::Ed25519(Ed25519Address([0; 32]));
    assert!(!stranger.verify(msg, &unlock));
}
