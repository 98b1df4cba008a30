//! Lane independence: what one lane of the sponge computes depends on that
//! lane of its inputs alone; and the trit codes that the substitution keeps.
use vstd::prelude::*;
use crate::bct::{BCTrit, HIGH_BITS};
use crate::curlp::{absorb_state, permute, round, sbox, squeeze, walk};

verus! {

/// Bit `j` of `w`: the part of `w` that lane `j` owns.
pub open spec fn lane_bit(w: u64, j: u64) -> u64 {
    (w >> j) & 1
}

/// `s1` and `s2` have the same length and hold the same trits in lane `j`.
pub open spec fn same_lane(s1: Seq<BCTrit>, s2: Seq<BCTrit>, j: u64) -> bool {
    &&& s1.len() == s2.len()
    &&& forall|i: int|
        0 <= i < s1.len() ==> lane_bit((#[trigger] s1[i]).lo, j) == lane_bit(s2[i].lo, j)
            && lane_bit(s1[i].hi, j) == lane_bit(s2[i].hi, j)
}

proof fn lemma_sbox_lane(a1: BCTrit, b1: BCTrit, a2: BCTrit, b2: BCTrit, j: u64)
    requires
        j < 64,
        lane_bit(a1.lo, j) == lane_bit(a2.lo, j),
        lane_bit(a1.hi, j) == lane_bit(a2.hi, j),
        lane_bit(b1.lo, j) == lane_bit(b2.lo, j),
        lane_bit(b1.hi, j) == lane_bit(b2.hi, j),
    ensures
        lane_bit(sbox(a1, b1).lo, j) == lane_bit(sbox(a2, b2).lo, j),
        lane_bit(sbox(a1, b1).hi, j) == lane_bit(sbox(a2, b2).hi, j),
{
    let (al1, ah1, bl1, bh1) = (a1.lo, a1.hi, b1.lo, b1.hi);
    let (al2, ah2, bl2, bh2) = (a2.lo, a2.hi, b2.lo, b2.hi);
    assert(((!((ah1 ^ bl1) & al1)) >> j) & 1 == ((!((ah2 ^ bl2) & al2)) >> j) & 1) by (bit_vector)
        requires
            j < 64,
            (al1 >> j) & 1 == (al2 >> j) & 1,
            (ah1 >> j) & 1 == (ah2 >> j) & 1,
            (bl1 >> j) & 1 == (bl2 >> j) & 1,
    ;
    assert((((ah1 ^ bl1) | (al1 ^ bh1)) >> j) & 1 == (((ah2 ^ bl2) | (al2 ^ bh2)) >> j) & 1)
        by (bit_vector)
        requires
            j < 64,
            (al1 >> j) & 1 == (al2 >> j) & 1,
            (ah1 >> j) & 1 == (ah2 >> j) & 1,
            (bl1 >> j) & 1 == (bl2 >> j) & 1,
            (bh1 >> j) & 1 == (bh2 >> j) & 1,
    ;
}

proof fn lemma_round_lane(s1: Seq<BCTrit>, s2: Seq<BCTrit>, j: u64)
    requires
        j < 64,
        s1.len() == 729,
        same_lane(s1, s2, j),
    ensures
        same_lane(round(s1), round(s2), j),
{
    assert forall|i: int| 0 <= i < 729 implies lane_bit(#[trigger] round(s1)[i].lo, j) == lane_bit(
        round(s2)[i].lo,
        j,
    ) && lane_bit(round(s1)[i].hi, j) == lane_bit(round(s2)[i].hi, j) by {
        let (p, q) = (walk(i), walk(i + 1));
        assert(0 <= p < 729 && 0 <= q < 729);
        lemma_sbox_lane(s1[p], s1[q], s2[p], s2[q], j);
    }
}

proof fn lemma_permute_lane(s1: Seq<BCTrit>, s2: Seq<BCTrit>, n: nat, j: u64)
    requires
        j < 64,
        s1.len() == 729,
        same_lane(s1, s2, j),
    ensures
        same_lane(permute(s1, n), permute(s2, n), j),
        permute(s1, n).len() == 729,
    decreases n,
{
    if n > 0 {
        lemma_permute_lane(s1, s2, (n - 1) as nat, j);
        lemma_round_lane(permute(s1, (n - 1) as nat), permute(s2, (n - 1) as nat), j);
    }
}

proof fn lemma_concat_lane(a1: Seq<BCTrit>, b1: Seq<BCTrit>, a2: Seq<BCTrit>, b2: Seq<BCTrit>, j: u64)
    requires
        same_lane(a1, a2, j),
        same_lane(b1, b2, j),
    ensures
        same_lane(a1 + b1, a2 + b2, j),
{
    assert forall|i: int| 0 <= i < (a1 + b1).len() implies lane_bit(#[trigger] (a1 + b1)[i].lo, j)
        == lane_bit((a2 + b2)[i].lo, j) && lane_bit((a1 + b1)[i].hi, j) == lane_bit(
        (a2 + b2)[i].hi,
        j,
    ) by {
        if i < a1.len() {
            assert(a1[i] == a1[i]);
        } else {
            assert(b1[i - a1.len()] == b1[i - a1.len()]);
        }
    }
}

proof fn lemma_subrange_lane(s1: Seq<BCTrit>, s2: Seq<BCTrit>, lo: int, hi: int, j: u64)
    requires
        same_lane(s1, s2, j),
        0 <= lo <= hi <= s1.len(),
    ensures
        same_lane(s1.subrange(lo, hi), s2.subrange(lo, hi), j),
{
    assert forall|i: int| 0 <= i < hi - lo implies lane_bit(#[trigger] s1.subrange(lo, hi)[i].lo, j)
        == lane_bit(s2.subrange(lo, hi)[i].lo, j) && lane_bit(s1.subrange(lo, hi)[i].hi, j)
        == lane_bit(s2.subrange(lo, hi)[i].hi, j) by {
        assert(s1[lo + i] == s1[lo + i]);
    }
}

proof fn lemma_absorb_lane(
    s1: Seq<BCTrit>,
    s2: Seq<BCTrit>,
    x1: Seq<BCTrit>,
    x2: Seq<BCTrit>,
    rounds: nat,
    j: u64,
)
    requires
        j < 64,
        s1.len() == 729,
        same_lane(s1, s2, j),
        same_lane(x1, x2, j),
    ensures
        same_lane(absorb_state(s1, x1, rounds), absorb_state(s2, x2, rounds), j),
        absorb_state(s1, x1, rounds).len() == 729,
    decreases x1.len(),
{
    if x1.len() == 0 {
    } else if x1.len() <= 243 {
        lemma_subrange_lane(s1, s2, x1.len() as int, 729, j);
        lemma_concat_lane(x1, s1.skip(x1.len() as int), x2, s2.skip(x1.len() as int), j);
        lemma_permute_lane(x1 + s1.skip(x1.len() as int), x2 + s2.skip(x1.len() as int), rounds, j);
    } else {
        lemma_subrange_lane(x1, x2, 0, 243, j);
        lemma_subrange_lane(x1, x2, 243, x1.len() as int, j);
        lemma_subrange_lane(s1, s2, 243, 729, j);
        lemma_concat_lane(x1.take(243), s1.skip(243), x2.take(243), s2.skip(243), j);
        lemma_permute_lane(x1.take(243) + s1.skip(243), x2.take(243) + s2.skip(243), rounds, j);
        lemma_absorb_lane(
            permute(x1.take(243) + s1.skip(243), rounds),
            permute(x2.take(243) + s2.skip(243), rounds),
            x1.skip(243),
            x2.skip(243),
            rounds,
            j,
        );
    }
}

proof fn lemma_squeeze_lane(s1: Seq<BCTrit>, s2: Seq<BCTrit>, n: nat, rounds: nat, j: u64)
    requires
        j < 64,
        s1.len() == 729,
        same_lane(s1, s2, j),
    ensures
        same_lane(squeeze(s1, n, rounds).0, squeeze(s2, n, rounds).0, j),
        same_lane(squeeze(s1, n, rounds).1, squeeze(s2, n, rounds).1, j),
        squeeze(s1, n, rounds).1.len() == 729,
    decreases n,
{
    lemma_permute_lane(s1, s2, rounds, j);
    if n == 0 {
    } else if n < 243 {
        lemma_subrange_lane(s1, s2, 0, n as int, j);
    } else {
        lemma_squeeze_lane(permute(s1, rounds), permute(s2, rounds), (n - 243) as nat, rounds, j);
        lemma_subrange_lane(s1, s2, 0, 243, j);
        let r1 = squeeze(permute(s1, rounds), (n - 243) as nat, rounds);
        let r2 = squeeze(permute(s2, rounds), (n - 243) as nat, rounds);
        lemma_concat_lane(s1.take(243), r1.0, s2.take(243), r2.0, j);
    }
}

/// Lanes do not interfere: two sponges whose states agree in lane `j` and
/// that absorb inputs agreeing in lane `j` squeeze outputs that agree in
/// lane `j`, whatever the other lanes hold. So a message packed into one
/// lane of a batch hashes as it would alone.
pub proof fn lemma_lane_independence(
    s1: Seq<BCTrit>,
    s2: Seq<BCTrit>,
    x1: Seq<BCTrit>,
    x2: Seq<BCTrit>,
    n: nat,
    rounds: nat,
    j: u64,
)
    requires
        j < 64,
        s1.len() == 729,
        same_lane(s1, s2, j),
        same_lane(x1, x2, j),
    ensures
        same_lane(
            squeeze(absorb_state(s1, x1, rounds), n, rounds).0,
            squeeze(absorb_state(s2, x2, rounds), n, rounds).0,
            j,
        ),
{
    lemma_absorb_lane(s1, s2, x1, x2, rounds, j);
    lemma_squeeze_lane(absorb_state(s1, x1, rounds), absorb_state(s2, x2, rounds), n, rounds, j);
}


/// The code of trit `t` in every lane: -1 is (1, 0), 0 is (1, 1) and 1 is
/// (0, 1) in (`lo`, `hi`) bits; (0, 0) is no trit.
pub open spec fn trit_code(t: int) -> BCTrit {
    if t == -1 {
        BCTrit { lo: HIGH_BITS, hi: 0 }
    } else if t == 0 {
        BCTrit { lo: HIGH_BITS, hi: HIGH_BITS }
    } else {
        BCTrit { lo: 0, hi: HIGH_BITS }
    }
}

/// The Curl-P substitution on trits: the new trit from the one read before
/// (`a`) and the one read now (`b`).
pub open spec fn curl_sbox(a: int, b: int) -> int {
    if b == -1 {
        -a
    } else if b == 0 {
        if a == -1 {
            1
        } else if a == 0 {
            -1
        } else {
            0
        }
    } else {
        if a == -1 {
            -1
        } else if a == 0 {
            1
        } else {
            0
        }
    }
}

/// On valid trit codes the bitwise substitution is the Curl-P one, so the
/// unused code never arises from valid input.
pub proof fn lemma_sbox_is_curl(a: int, b: int)
    requires
        -1 <= a <= 1,
        -1 <= b <= 1,
    ensures
        sbox(trit_code(a), trit_code(b)) == trit_code(curl_sbox(a, b)),
{
    assert(!(0u64 & 0u64) == HIGH_BITS) by (bit_vector);
    assert(!(HIGH_BITS & HIGH_BITS) == 0u64) by (bit_vector);
    assert(!(0u64 & HIGH_BITS) == HIGH_BITS) by (bit_vector);
    assert(!(HIGH_BITS & 0u64) == HIGH_BITS) by (bit_vector);
    assert(HIGH_BITS ^ HIGH_BITS == 0u64) by (bit_vector);
    assert(HIGH_BITS ^ 0u64 == HIGH_BITS) by (bit_vector);
    assert(0u64 ^ HIGH_BITS == HIGH_BITS) by (bit_vector);
    assert(0u64 ^ 0u64 == 0u64) by (bit_vector);
    assert(HIGH_BITS | 0u64 == HIGH_BITS) by (bit_vector);
    assert(0u64 | HIGH_BITS == HIGH_BITS) by (bit_vector);
    assert(0u64 | 0u64 == 0u64) by (bit_vector);
    assert(HIGH_BITS | HIGH_BITS == HIGH_BITS) by (bit_vector);
}

} // verus!
