//! The batched Curl-P sponge: absorb, permute and squeeze on 64 lanes at once.
use vstd::prelude::*;
use vstd::arithmetic::div_mod::lemma_fundamental_div_mod_converse;
use crate::bct::{BCTrit, BCTritBuf, HIGH_BITS};

verus! {

/// Cells of one digest: the rate of the sponge.
pub const HASH_LENGTH: usize = 243;

/// Cells of the sponge state.
pub const STATE_LENGTH: usize = 729;

/// The stride of the index walk: half of one less than the state length.
pub const STRIDE: usize = 364;

/// The substitution, lane by lane: `a` is the cell read before, `b` the one read now.
pub open spec fn sbox(a: BCTrit, b: BCTrit) -> BCTrit {
    let delta = a.hi ^ b.lo;
    BCTrit { lo: !(delta & a.lo), hi: delta | (a.lo ^ b.hi) }
}

/// The `k`-th index visited by the walk over the state.
pub open spec fn walk(k: int) -> int {
    (k * 364) % 729
}

/// One round of the permutation.
pub open spec fn round(s: Seq<BCTrit>) -> Seq<BCTrit> {
    Seq::new(729, |i: int| sbox(s[walk(i)], s[walk(i + 1)]))
}

/// `n` rounds of the permutation.
pub open spec fn permute(s: Seq<BCTrit>, n: nat) -> Seq<BCTrit>
    decreases n,
{
    if n == 0 {
        s
    } else {
        round(permute(s, (n - 1) as nat))
    }
}

/// The state of a fresh sponge.
pub open spec fn initial_state() -> Seq<BCTrit> {
    Seq::new(729, |i: int| BCTrit { lo: HIGH_BITS, hi: HIGH_BITS })
}

/// What `reset` makes of a state `s`: every cell back to the fill value.
pub open spec fn reset_state(s: Seq<BCTrit>) -> Seq<BCTrit> {
    Seq::new(s.len(), |i: int| BCTrit { lo: HIGH_BITS, hi: HIGH_BITS })
}

/// The first `n` cells squeezed after absorbing `input` into a fresh sponge.
pub open spec fn digest(input: Seq<BCTrit>, n: nat, rounds: nat) -> Seq<BCTrit> {
    squeeze(absorb_state(initial_state(), input, rounds), n, rounds).0
}

/// The state after absorbing `input` into `s`, a block of at most a rate at a
/// time, each block laid over the front of the state and followed by a
/// permutation; a short last block leaves the rest of the rate as it was.
pub open spec fn absorb_state(s: Seq<BCTrit>, input: Seq<BCTrit>, rounds: nat) -> Seq<BCTrit>
    decreases input.len(),
{
    if input.len() == 0 {
        s
    } else if input.len() <= 243 {
        permute(input + s.skip(input.len() as int), rounds)
    } else {
        absorb_state(
            permute(input.take(243) + s.skip(243), rounds),
            input.skip(243),
            rounds,
        )
    }
}

/// What squeezing `n` cells out of state `s` yields, and the state after:
/// a rate of cells and a permutation at a time, a permutation after a
/// short last block too.
pub open spec fn squeeze(s: Seq<BCTrit>, n: nat, rounds: nat) -> (Seq<BCTrit>, Seq<BCTrit>)
    decreases n,
{
    if n == 0 {
        (Seq::empty(), s)
    } else if n < 243 {
        (s.take(n as int), permute(s, rounds))
    } else {
        let rest = squeeze(permute(s, rounds), (n - 243) as nat, rounds);
        (s.take(243) + rest.0, rest.1)
    }
}

/// How many permutations absorbing `len` cells runs: one per started block.
pub open spec fn absorb_calls(len: nat) -> nat {
    ((len + 242) / 243) as nat
}

/// How many permutations squeezing `n` cells runs: one per started block.
pub open spec fn squeeze_calls(n: nat) -> nat {
    ((n + 242) / 243) as nat
}

proof fn lemma_walk(m: int)
    requires
        0 <= m <= 364,
    ensures
        walk(2 * m + 1) == 364 - m,
        m < 364 ==> walk(2 * m + 2) == 728 - m,
        walk(0) == 0,
{
    assert((2 * m + 1) * 364 == m * 729 + (364 - m)) by (nonlinear_arith);
    lemma_fundamental_div_mod_converse((2 * m + 1) * 364, 729, m, 364 - m);
    if m < 364 {
        assert((2 * m + 2) * 364 == m * 729 + (728 - m)) by (nonlinear_arith);
        lemma_fundamental_div_mod_converse((2 * m + 2) * 364, 729, m, 728 - m);
    }
    lemma_fundamental_div_mod_converse(0, 729, 0, 0);
}

/// Squeezing a whole number of blocks and then `n` more cells yields the
/// same stream, and the same state, as squeezing them all at once.
pub proof fn lemma_squeeze_split(s: Seq<BCTrit>, m: nat, n: nat, rounds: nat)
    requires
        m % 243 == 0,
    ensures
        squeeze(s, m + n, rounds) == ({
            let first = squeeze(s, m, rounds);
            let second = squeeze(first.1, n, rounds);
            (first.0 + second.0, second.1)
        }),
    decreases m,
{
    if m == 0 {
        let second = squeeze(s, n, rounds);
        assert(Seq::<BCTrit>::empty() + second.0 =~= second.0);
    } else {
        lemma_squeeze_split(permute(s, rounds), (m - 243) as nat, n, rounds);
        let rest = squeeze(permute(s, rounds), (m - 243) as nat, rounds);
        let second = squeeze(rest.1, n, rounds);
        assert(s.take(243) + rest.0 + second.0 =~= s.take(243) + (rest.0 + second.0));
    }
}

/// Two squeezes of one rate each, the second going on from the state that
/// the first left, yield the same cells as one squeeze of two rates.
pub proof fn lemma_squeeze_prefix_stable(s: Seq<BCTrit>, rounds: nat)
    ensures
        squeeze(s, 486, rounds).0 == squeeze(s, 243, rounds).0 + squeeze(
            squeeze(s, 243, rounds).1,
            243,
            rounds,
        ).0,
{
    lemma_squeeze_split(s, 243, 243, rounds);
}

/// A sponge that was used and then reset hashes every input as a fresh one:
/// the output of any absorb and squeeze that follow is the same.
pub proof fn lemma_reset_equivalence(used: Seq<BCTrit>, input: Seq<BCTrit>, n: nat, rounds: nat)
    requires
        used.len() == 729,
    ensures
        squeeze(absorb_state(reset_state(used), input, rounds), n, rounds) == squeeze(
            absorb_state(initial_state(), input, rounds),
            n,
            rounds,
        ),
{
    assert(reset_state(used) =~= initial_state());
}

/// Hashing is deterministic: two sponges of the same rounds, each fresh or
/// reset from any earlier use, squeeze the same cells after absorbing the
/// same input, namely `digest(input, n, rounds)`.
pub proof fn lemma_determinism(
    s1: Seq<BCTrit>,
    s2: Seq<BCTrit>,
    input: Seq<BCTrit>,
    n: nat,
    rounds: nat,
)
    requires
        s1 == initial_state() || exists|u: Seq<BCTrit>| u.len() == 729 && s1 == reset_state(u),
        s2 == initial_state() || exists|u: Seq<BCTrit>| u.len() == 729 && s2 == reset_state(u),
    ensures
        squeeze(absorb_state(s1, input, rounds), n, rounds).0 == digest(input, n, rounds),
        squeeze(absorb_state(s2, input, rounds), n, rounds).0 == digest(input, n, rounds),
{
    if s1 != initial_state() {
        let u = choose|u: Seq<BCTrit>| u.len() == 729 && s1 == reset_state(u);
        assert(reset_state(u) =~= initial_state());
    }
    if s2 != initial_state() {
        let u = choose|u: Seq<BCTrit>| u.len() == 729 && s2 == reset_state(u);
        assert(reset_state(u) =~= initial_state());
    }
}

/// A batched Curl-P sponge with its own state and scratch buffers.
pub struct BCTCurlP {
    rounds: usize,
    state: BCTritBuf,
    scratch_pad: BCTritBuf,
    permutations: Ghost<nat>,
}

impl BCTCurlP {
    /// The number of rounds of each permutation.
    pub closed spec fn spec_rounds(&self) -> nat {
        self.rounds as nat
    }

    /// The current sponge state.
    pub closed spec fn spec_state(&self) -> Seq<BCTrit> {
        self.state@
    }

    /// How many permutations this sponge has run since it was made.
    pub closed spec fn spec_permutations(&self) -> nat {
        self.permutations@
    }

    pub closed spec fn wf(&self) -> bool {
        self.state@.len() == 729 && self.scratch_pad@.len() == 729
    }

    /// A sponge of `rounds` rounds per permutation, in its initial state.
    pub fn new(rounds: usize) -> (r: BCTCurlP)
        ensures
            r.wf(),
            r.spec_rounds() == rounds,
            r.spec_state() == initial_state(),
            r.spec_permutations() == 0,
    {
        let high = BCTrit::new(HIGH_BITS, HIGH_BITS);
        BCTCurlP {
            rounds,
            state: BCTritBuf::filled(high, STATE_LENGTH),
            scratch_pad: BCTritBuf::filled(high, STATE_LENGTH),
            permutations: Ghost(0),
        }
    }

    /// Puts the state back to the initial one, for a new independent hash.
    pub fn reset(&mut self)
        requires
            old(self).wf(),
        ensures
            final(self).wf(),
            final(self).spec_rounds() == old(self).spec_rounds(),
            final(self).spec_state() == reset_state(old(self).spec_state()),
            final(self).spec_state() == initial_state(),
            final(self).spec_permutations() == old(self).spec_permutations(),
    {
        self.state.fill(BCTrit::new(HIGH_BITS, HIGH_BITS));
    }

    /// One round: the state is copied to the scratch pad, then each state
    /// cell is computed from two cells of the copy along the index walk.
    fn round(&mut self)
        requires
            old(self).wf(),
        ensures
            final(self).wf(),
            final(self).rounds == old(self).rounds,
            final(self).permutations == old(self).permutations,
            final(self).state@ == round(old(self).state@),
    {
        let copied = self.scratch_pad.copy_from_slice(&self.state);
        assert(copied is Ok);
        let ghost snap = self.scratch_pad@;
        proof {
            lemma_walk(0);
        }
        let mut temp = self.scratch_pad.get(0);
        let mut scratch_pad_index: usize = STRIDE;
        let alpha = temp.lo();
        let beta = temp.hi();
        temp = self.scratch_pad.get(scratch_pad_index);
        let delta = beta ^ temp.lo();
        self.state.set(0, BCTrit::new(!(delta & alpha), delta | (alpha ^ temp.hi())));
        let mut state_index: usize = 1;
        while state_index < STATE_LENGTH
            invariant
                self.wf(),
                self.scratch_pad@ == snap,
                snap.len() == 729,
                state_index % 2 == 1,
                1 <= state_index <= 729,
                scratch_pad_index == 364 - (state_index - 1) / 2,
                temp == snap[walk(state_index as int)],
                forall|j: int|
                    0 <= j < state_index ==> #[trigger] self.state@[j] == sbox(
                        snap[walk(j)],
                        snap[walk(j + 1)],
                    ),
                self.rounds == old(self).rounds,
                self.permutations == old(self).permutations,
            decreases 729 - state_index,
        {
            proof {
                lemma_walk(((state_index - 1) / 2) as int);
            }
            scratch_pad_index += STRIDE;
            let alpha = temp.lo();
            let beta = temp.hi();
            temp = self.scratch_pad.get(scratch_pad_index);
            let delta = beta ^ temp.lo();
            self.state.set(state_index, BCTrit::new(!(delta & alpha), delta | (alpha ^ temp.hi())));
            state_index += 1;

            proof {
                lemma_walk(((state_index) / 2) as int);
            }
            scratch_pad_index -= STRIDE + 1;
            let alpha = temp.lo();
            let beta = temp.hi();
            temp = self.scratch_pad.get(scratch_pad_index);
            let delta = beta ^ temp.lo();
            self.state.set(state_index, BCTrit::new(!(delta & alpha), delta | (alpha ^ temp.hi())));
            state_index += 1;
        }
        assert(self.state@ =~= round(snap));
    }

    /// Runs the permutation: `rounds` rounds.
    fn transform(&mut self)
        requires
            old(self).wf(),
        ensures
            final(self).wf(),
            final(self).rounds == old(self).rounds,
            final(self).state@ == permute(old(self).state@, old(self).rounds as nat),
            final(self).permutations@ == old(self).permutations@ + 1,
    {
        let mut r: usize = 0;
        while r < self.rounds
            invariant
                self.wf(),
                r <= self.rounds,
                self.rounds == old(self).rounds,
                self.permutations == old(self).permutations,
                self.state@ == permute(old(self).state@, r as nat),
            decreases self.rounds - r,
        {
            self.round();
            r += 1;
        }
        self.permutations = Ghost(self.permutations@ + 1);
    }

    /// Absorbs `bc_trits`, a rate at a time, with one permutation per block;
    /// nothing happens for an empty input.
    pub fn absorb(&mut self, bc_trits: &BCTritBuf)
        requires
            old(self).wf(),
        ensures
            final(self).wf(),
            final(self).spec_rounds() == old(self).spec_rounds(),
            final(self).spec_state() == absorb_state(
                old(self).spec_state(),
                bc_trits@,
                old(self).spec_rounds(),
            ),
            final(self).spec_permutations() == old(self).spec_permutations() + absorb_calls(
                bc_trits@.len(),
            ),
    {
        let total = bc_trits.len();
        let mut offset: usize = 0;
        assert(bc_trits@.skip(0) =~= bc_trits@);
        while offset < total
            invariant
                self.wf(),
                offset <= total,
                total == bc_trits@.len(),
                offset % 243 == 0 || offset == total,
                self.rounds == old(self).rounds,
                absorb_state(self.state@, bc_trits@.skip(offset as int), self.rounds as nat)
                    == absorb_state(old(self).state@, bc_trits@, self.rounds as nat),
                self.permutations@ == old(self).permutations@ + absorb_calls(offset as nat),
            decreases total - offset,
        {
            let length = total - offset;
            let length_to_copy = if length < HASH_LENGTH {
                length
            } else {
                HASH_LENGTH
            };
            let ghost before = self.state@;
            let ghost rest = bc_trits@.skip(offset as int);
            self.state.copy_range(0, bc_trits, offset, length_to_copy);
            proof {
                if length <= 243 {
                    assert(self.state@ =~= rest + before.skip(rest.len() as int));
                } else {
                    assert(self.state@ =~= rest.take(243) + before.skip(243));
                    assert(rest.skip(243) =~= bc_trits@.skip(offset + 243));
                }
            }
            self.transform();
            offset += length_to_copy;
        }
        assert(bc_trits@.skip(offset as int).len() == 0);
    }

    /// Fills `result` with the next `result.len()` cells of the output
    /// stream, a rate and a permutation at a time; a short last block is
    /// followed by a permutation too.
    pub fn squeeze_into(&mut self, result: &mut BCTritBuf)
        requires
            old(self).wf(),
        ensures
            final(self).wf(),
            final(self).spec_rounds() == old(self).spec_rounds(),
            final(result)@ == squeeze(old(self).spec_state(), old(result)@.len(), old(self).spec_rounds()).0,
            final(self).spec_state() == squeeze(
                old(self).spec_state(),
                old(result)@.len(),
                old(self).spec_rounds(),
            ).1,
            final(self).spec_permutations() == old(self).spec_permutations() + squeeze_calls(
                old(result)@.len(),
            ),
    {
        let trit_count = result.len();
        let hash_count = trit_count / HASH_LENGTH;
        let ghost s0 = self.state@;
        let ghost rounds = self.rounds as nat;
        let mut done: usize = 0;
        let mut i: usize = 0;
        while i < hash_count
            invariant
                self.wf(),
                i <= hash_count,
                hash_count == trit_count / 243,
                trit_count == result@.len(),
                done == i * 243,
                done <= trit_count,
                self.rounds == old(self).rounds,
                rounds == self.rounds,
                s0 == old(self).state@,
                result@.len() == old(result)@.len(),
                result@.take(done as int) == squeeze(s0, done as nat, rounds).0,
                self.state@ == squeeze(s0, done as nat, rounds).1,
                self.permutations@ == old(self).permutations@ + i,
            decreases hash_count - i,
        {
            let ghost before = self.state@;
            let ghost prev = result@;
            result.copy_range(done, &self.state, 0, HASH_LENGTH);
            proof {
                lemma_squeeze_split(s0, done as nat, 243, rounds);
                assert(result@.take(done as int) =~= prev.take(done as int));
                assert(result@.take(done + 243) =~= result@.take(done as int) + before.take(243));
                assert(squeeze(permute(before, rounds), 0, rounds).0 == Seq::<BCTrit>::empty());
                assert(squeeze(before, 243, rounds).0 =~= before.take(243) + Seq::<BCTrit>::empty());
            }
            self.transform();
            proof {
                assert(squeeze(before, 243, rounds).1 == squeeze(permute(before, rounds), 0, rounds).1);
            }
            done += HASH_LENGTH;
            i += 1;
        }
        let last = trit_count - done;
        let ghost before = self.state@;
        let ghost prev = result@;
        result.copy_range(done, &self.state, 0, last);
        proof {
            lemma_squeeze_split(s0, done as nat, last as nat, rounds);
            assert(result@.take(done as int) =~= prev.take(done as int));
            assert(result@ =~= result@.take(done as int) + before.take(last as int));
        }
        if trit_count % HASH_LENGTH != 0 {
            self.transform();
            proof {
                assert(squeeze(before, last as nat, rounds).0 + Seq::<BCTrit>::empty() =~= squeeze(before, last as nat, rounds).0);
            }
        } else {
            proof {
                assert(squeeze(before, last as nat, rounds).0 + Seq::<BCTrit>::empty() =~= squeeze(before, last as nat, rounds).0);
            }
        }
    }
}

} // verus!
