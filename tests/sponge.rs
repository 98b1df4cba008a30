use bee_core::bct::{BCTrit, BCTritBuf, LengthMismatch, HIGH_BITS};
use bee_core::curlp::{BCTCurlP, HASH_LENGTH, STATE_LENGTH};

const TRUTH_TABLE: [i8; 11] = [1, 0, -1, 2, 1, -1, 0, 2, -1, 1, 0];

// Bit codes of one lane: -1 is (1, 0), 0 is (1, 1), 1 is (0, 1).
fn code(t: i8) -> (bool, bool) {
    match t {
        -1 => (true, false),
        0 => (true, true),
        1 => (false, true),
        _ => panic!("not a trit"),
    }
}

fn decode(lo: bool, hi: bool) -> i8 {
    match (lo, hi) {
        (true, false) => -1,
        (true, true) => 0,
        (false, true) => 1,
        _ => panic!("unused code"),
    }
}

// Packs one message per lane; all messages have the same length.
fn pack_lanes(messages: &[Vec<i8>]) -> BCTritBuf {
    let len = messages[0].len();
    let mut cells = Vec::new();
    for i in 0..len {
        let mut lo = 0u64;
        let mut hi = 0u64;
        for (j, m) in messages.iter().enumerate() {
            let (l, h) = code(m[i]);
            lo |= (l as u64) << j;
            hi |= (h as u64) << j;
        }
        cells.push(BCTrit::new(lo, hi));
    }
    BCTritBuf::from_cells(cells)
}

// The same message in every lane.
fn broadcast(message: &[i8]) -> BCTritBuf {
    let cells = message
        .iter()
        .map(|&t| {
            let (l, h) = code(t);
            BCTrit::new(if l { u64::MAX } else { 0 }, if h { u64::MAX } else { 0 })
        })
        .collect();
    BCTritBuf::from_cells(cells)
}

fn lane(buf: &BCTritBuf, j: u32) -> Vec<i8> {
    buf.to_cells()
        .iter()
        .map(|c| decode((c.lo() >> j) & 1 == 1, (c.hi() >> j) & 1 == 1))
        .collect()
}

// A plain one-trit-per-cell Curl-P with the same block rules.
fn scalar_round(s: &[i8]) -> Vec<i8> {
    (0..729)
        .map(|i| {
            let a = s[(i * 364) % 729];
            let b = s[((i + 1) * 364) % 729];
            TRUTH_TABLE[(a + 4 * b + 5) as usize]
        })
        .collect()
}

fn scalar_permute(s: &mut Vec<i8>, rounds: usize) {
    for _ in 0..rounds {
        *s = scalar_round(s);
    }
}

fn scalar_hash(input: &[i8], n: usize, rounds: usize) -> Vec<i8> {
    let mut s = vec![0i8; 729];
    for chunk in input.chunks(243) {
        s[..chunk.len()].copy_from_slice(chunk);
        scalar_permute(&mut s, rounds);
    }
    let mut out = Vec::new();
    while out.len() < n {
        let take = std::cmp::min(243, n - out.len());
        out.extend_from_slice(&s[..take]);
        scalar_permute(&mut s, rounds);
    }
    out
}

fn message(len: usize, seed: u64) -> Vec<i8> {
    let mut x = seed;
    (0..len)
        .map(|_| {
            x = x.wrapping_mul(6364136223846793005).wrapping_add(1442695040888963407);
            ((x >> 33) % 3) as i8 - 1
        })
        .collect()
}

fn hash(engine: &mut BCTCurlP, input: &BCTritBuf, n: usize) -> BCTritBuf {
    engine.absorb(input);
    let mut out = BCTritBuf::filled(BCTrit::new(0, 0), n);
    engine.squeeze_into(&mut out);
    out
}

#[test]
fn empty_input_squeezes_the_initial_rate() {
    let mut engine = BCTCurlP::new(81);
    let out = hash(&mut engine, &BCTritBuf::from_cells(Vec::new()), HASH_LENGTH);
    assert_eq!(lane(&out, 0), vec![0i8; 243]);
    assert_eq!(lane(&out, 0), scalar_hash(&[], 243, 81));
    for c in out.to_cells() {
        assert_eq!(c, BCTrit::new(HIGH_BITS, HIGH_BITS));
    }
}

#[test]
fn digest_matches_table_curl_81() {
    let m = message(243, 1);
    let mut engine = BCTCurlP::new(81);
    let out = hash(&mut engine, &broadcast(&m), 243);
    let expected = scalar_hash(&m, 243, 81);
    assert_ne!(expected, vec![0i8; 243]);
    for j in [0u32, 17, 63] {
        assert_eq!(lane(&out, j), expected);
    }
}

#[test]
fn digest_matches_table_curl_27_long_input() {
    let m = message(600, 2);
    let mut engine = BCTCurlP::new(27);
    let out = hash(&mut engine, &broadcast(&m), 500);
    assert_eq!(lane(&out, 5), scalar_hash(&m, 500, 27));
}

#[test]
fn hashing_is_deterministic() {
    let m = broadcast(&message(300, 3));
    let a = hash(&mut BCTCurlP::new(81), &m, 243);
    let b = hash(&mut BCTCurlP::new(81), &m, 243);
    assert_eq!(a.to_cells(), b.to_cells());
    let mut engine = BCTCurlP::new(81);
    let c = hash(&mut engine, &m, 243);
    engine.reset();
    let d = hash(&mut engine, &m, 243);
    assert_eq!(c.to_cells(), d.to_cells());
    assert_eq!(a.to_cells(), d.to_cells());
}

#[test]
fn reset_engine_hashes_as_fresh() {
    let x = broadcast(&message(250, 4));
    let other = broadcast(&message(700, 5));
    let fresh = hash(&mut BCTCurlP::new(81), &x, 300);
    let mut engine = BCTCurlP::new(81);
    hash(&mut engine, &other, 100);
    engine.reset();
    let again = hash(&mut engine, &x, 300);
    assert_eq!(fresh.to_cells(), again.to_cells());
}

#[test]
fn squeeze_is_prefix_stable() {
    let x = broadcast(&message(243, 6));
    let mut one = BCTCurlP::new(81);
    let both = hash(&mut one, &x, 2 * HASH_LENGTH);
    let mut two = BCTCurlP::new(81);
    let first = hash(&mut two, &x, HASH_LENGTH);
    let mut second = BCTritBuf::filled(BCTrit::new(0, 0), HASH_LENGTH);
    two.squeeze_into(&mut second);
    let mut joined = first.to_cells();
    joined.extend(second.to_cells());
    assert_eq!(both.to_cells(), joined);
}

#[test]
fn short_last_block_is_not_padded() {
    let m = message(HASH_LENGTH + 10, 7);
    let mut extended = m.clone();
    extended.resize(2 * HASH_LENGTH, 0);
    let a = hash(&mut BCTCurlP::new(81), &broadcast(&m), 243);
    let b = hash(&mut BCTCurlP::new(81), &broadcast(&extended), 243);
    assert_ne!(a.to_cells(), b.to_cells());
}

#[test]
fn lanes_do_not_interfere() {
    let a = message(400, 8);
    let b = message(400, 9);
    assert_ne!(a, b);
    let batch = pack_lanes(&[a.clone(), b.clone()]);
    let out = hash(&mut BCTCurlP::new(81), &batch, 243);
    let alone_a = hash(&mut BCTCurlP::new(81), &pack_lanes(&[a.clone()]), 243);
    let alone_b = hash(&mut BCTCurlP::new(81), &pack_lanes(&[b.clone()]), 243);
    assert_eq!(lane(&out, 0), lane(&alone_a, 0));
    assert_eq!(lane(&out, 1), lane(&alone_b, 0));
    assert_eq!(lane(&out, 0), scalar_hash(&a, 243, 81));
    assert_eq!(lane(&out, 1), scalar_hash(&b, 243, 81));
}

#[test]
fn block_counts_match_one_shot_hashing() {
    // Absorbing 2R + 10 cells in one call equals the table hash, which runs
    // three permutations for it; squeezing 2R + 5 cells runs three more.
    let m = message(2 * HASH_LENGTH + 10, 10);
    let out = hash(&mut BCTCurlP::new(27), &broadcast(&m), 2 * HASH_LENGTH + 5);
    assert_eq!(lane(&out, 0), scalar_hash(&m, 2 * HASH_LENGTH + 5, 27));
}

#[test]
fn copy_from_slice_rejects_other_lengths() {
    let mut dst = BCTritBuf::filled(BCTrit::new(1, 2), 4);
    let src = BCTritBuf::filled(BCTrit::new(3, 4), 5);
    assert_eq!(dst.copy_from_slice(&src), Err(LengthMismatch { expected: 4, found: 5 }));
    assert_eq!(dst.to_cells(), vec![BCTrit::new(1, 2); 4]);
    let same = BCTritBuf::filled(BCTrit::new(3, 4), 4);
    assert_eq!(dst.copy_from_slice(&same), Ok(()));
    assert_eq!(dst.to_cells(), vec![BCTrit::new(3, 4); 4]);
}

#[test]
fn fill_and_bitwise_operations() {
    let mut buf = BCTritBuf::filled(BCTrit::new(0, 0), STATE_LENGTH);
    assert_eq!(buf.len(), 729);
    buf.fill(BCTrit::new(5, 6));
    assert_eq!(buf.get(728), BCTrit::new(5, 6));
    buf.set(3, BCTrit::new(7, 8));
    assert_eq!(buf.get(3), BCTrit::new(7, 8));
    let a = BCTrit::new(0b1100, 0b1010);
    let b = BCTrit::new(0b1010, 0b0110);
    assert_eq!(a.bit_and(b), BCTrit::new(0b1000, 0b0010));
    assert_eq!(a.bit_or(b), BCTrit::new(0b1110, 0b1110));
    assert_eq!(a.bit_xor(b), BCTrit::new(0b0110, 0b1100));
    assert_eq!(a.bit_not(), BCTrit::new(!0b1100u64, !0b1010u64));
}
