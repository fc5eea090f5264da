//! The simulator's pseudorandom source: a seeded ChaCha8 stream, and the
//! rejection-sampled dice rolls drawn from it.
//!
//! A ChaCha8 stream is a pure function of its 32-byte seed: the word at each
//! position is given a name, `chacha8_word`, and every draw is stated as that
//! word at the stream's current position. Nothing is assumed about the drawn
//! values themselves, but two streams with one seed agree draw for draw,
//! which is what makes seeded runs reproducible.

use vstd::prelude::*;

use crate::time::DiceRoll;

verus! {

#[verifier::external_type_specification]
#[verifier::external_body]
pub struct ExChaCha8Rng(rand_chacha::ChaCha8Rng);

/// The 64-bit word that a ChaCha8 stream seeded with `seed` yields at
/// position `pos`: a fixed function of the two, computed only by the outside
/// generator.
pub uninterp spec fn chacha8_word(seed: Seq<u8>, pos: nat) -> u64;

/// A seeded 64-bit pseudorandom stream. The stream is a pure function of the
/// seed, so runs that share a seed share every draw.
pub struct SimRng {
    inner: rand_chacha::ChaCha8Rng,
    seed: Ghost<Seq<u8>>,
    pos: Ghost<nat>,
}

impl SimRng {
    /// The 32-byte seed the stream was created from.
    pub closed spec fn seed(&self) -> Seq<u8> {
        self.seed@
    }

    /// How many 64-bit words have been drawn so far.
    pub closed spec fn stream_pos(&self) -> nat {
        self.pos@
    }

    /// A fresh stream at position zero, seeded with the given bytes.
    pub fn from_seed(seed: [u8; 32]) -> (r: SimRng)
        ensures
            r.seed() == seed@,
            r.stream_pos() == 0,
    {
        SimRng { inner: chacha8_from_seed(seed), seed: Ghost(seed@), pos: Ghost(0 as nat) }
    }

    /// Relies on rand_core's `RngCore::next_u64` on `ChaCha8Rng`: the next
    /// word of the stream, a function of the seed and the position alone.
    #[verifier::external_body]
    pub(crate) fn next_u64(&mut self) -> (r: u64)
        ensures
            r == chacha8_word(old(self).seed(), old(self).stream_pos()),
            final(self).seed() == old(self).seed(),
            final(self).stream_pos() == old(self).stream_pos() + 1,
    {
        <rand_chacha::ChaCha8Rng as rand_chacha::rand_core::Rng>::next_u64(&mut self.inner)
    }
}

/// Relies on rand_chacha's `ChaCha8Rng::from_seed`: a deterministic
/// pseudorandom generator, fully determined by the 32 seed bytes.
#[verifier::external_body]
fn chacha8_from_seed(seed: [u8; 32]) -> rand_chacha::ChaCha8Rng {
    <rand_chacha::ChaCha8Rng as rand_chacha::rand_core::SeedableRng>::from_seed(seed)
}

/// The all-ones bit mask the rejection sampler uses: doubled and filled until
/// it covers `sides`, so it covers at most `2 * sides` values.
pub open spec fn roll_mask(m: u64, sides: u64) -> u64
    decreases 2 * sides - m
        when 0 < m && sides < 0x8000000000000000
{
    if m >= sides {
        m
    } else {
        roll_mask((2 * m + 1) as u64, sides)
    }
}

/// The masked word the rejection sampler settles on, and the stream position
/// after it: words are drawn from `pos` on until one lands below `sides` or
/// the retry cap is reached.
pub open spec fn roll_draws(seed: Seq<u8>, pos: nat, sides: u64, mask: u64, tries: u64) -> (
    u64,
    nat,
)
    decreases 10000 - tries
        when tries <= 10000
{
    let s = chacha8_word(seed, pos) & mask;
    if s < sides || tries >= 10000 {
        (s, (pos + 1) as nat)
    } else {
        roll_draws(seed, (pos + 1) as nat, sides, mask, (tries + 1) as u64)
    }
}

/// The roll that a seeded stream yields at a position, with the position
/// after it: the settled draw, reduced into range if the cap was hit.
pub open spec fn roll_at(seed: Seq<u8>, pos: nat, sides: u64) -> (u64, nat) {
    let m = roll_mask(1, sides);
    let d = roll_draws(seed, pos, sides, m, 0);
    if d.0 < sides {
        d
    } else {
        ((d.0 % sides) as u64, d.1)
    }
}

impl<const SIDES: u64> DiceRoll<SIDES> {
    /// One uniform sample from `[0, SIDES)`: 64-bit draws are masked to the
    /// smallest all-ones mask no smaller than `SIDES` and re-drawn while they
    /// land outside the range. The retries are capped at a count that no
    /// seeded run reaches; if the cap were ever hit, the last draw is reduced
    /// into range. The sample and the words consumed are a function of the
    /// stream's seed and position alone.
    pub fn roll(rng: &mut SimRng) -> (r: Self)
        requires
            0 < SIDES < 0x8000000000000000,
        ensures
            r.0 < SIDES,
            (r.0, final(rng).stream_pos()) == roll_at(
                old(rng).seed(),
                old(rng).stream_pos(),
                SIDES,
            ),
            final(rng).seed() == old(rng).seed(),
            final(rng).stream_pos() > old(rng).stream_pos(),
    {
        let ghost seed0 = rng.seed();
        let ghost pos0 = rng.stream_pos();
        let mut mask: u64 = 1;
        while mask < SIDES
            invariant
                SIDES < 0x8000000000000000,
                0 < mask,
                roll_mask(1, SIDES) == roll_mask(mask, SIDES),
            decreases 2 * SIDES - mask,
        {
            mask = 2 * mask + 1;
        }
        proof {
            assert(roll_mask(mask, SIDES) == mask);
            assert(roll_mask(1, SIDES) == mask);
        }
        let mut tries: u64 = 0;
        let mut sample: u64 = rng.next_u64() & mask;
        while sample >= SIDES && tries < 10000
            invariant
                0 < SIDES,
                tries <= 10000,
                rng.seed() == seed0,
                rng.stream_pos() == pos0 + tries + 1,
                sample == (chacha8_word(seed0, (pos0 + tries) as nat) & mask),
                roll_draws(seed0, pos0, SIDES, mask, 0) == roll_draws(
                    seed0,
                    (pos0 + tries) as nat,
                    SIDES,
                    mask,
                    tries,
                ),
            decreases 10000 - tries,
        {
            proof {
                assert(roll_draws(seed0, (pos0 + tries) as nat, SIDES, mask, tries) == roll_draws(
                    seed0,
                    (pos0 + tries + 1) as nat,
                    SIDES,
                    mask,
                    (tries + 1) as u64,
                ));
            }
            sample = rng.next_u64() & mask;
            tries = tries + 1;
        }
        proof {
            assert(roll_draws(seed0, (pos0 + tries) as nat, SIDES, mask, tries) == (
                sample,
                (pos0 + tries + 1) as nat,
            ));
            assert(roll_draws(seed0, pos0, SIDES, mask, 0) == (sample, rng.stream_pos()));
        }
        if sample < SIDES {
            DiceRoll(sample)
        } else {
            proof {
                assert(sample % SIDES < SIDES);
            }
            DiceRoll(sample % SIDES)
        }
    }
}

} // verus!
