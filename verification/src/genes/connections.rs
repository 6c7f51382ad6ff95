use vstd::prelude::*;
use vstd::arithmetic::power2::{lemma2_to64, lemma_pow2_pos, lemma_pow2_unfold, pow2};

use crate::genes::ids::Id;
use crate::rng::below;

verus! {

/// Weights and probabilities are fixed-point values: `WEIGHT_SCALE` units
/// stand for 1.0, so one unit is a millionth.
pub const WEIGHT_SCALE: i64 = 1_000_000;

/// Largest accepted weight cap, so that `weight + perturbation` always fits
/// in the weight's machine type.
pub const MAX_WEIGHT_CAP: i64 = 1_000_000_000_000;

/// Struct describing an ANN connection.
///
/// A connection is characterised by its input/origin/start, its
/// output/destination/end and its weight. Its identity is the
/// `(input, output)` pair; `id_counter` is private per-instance state used
/// solely to derive fresh ids and is not part of identity or equality.
#[derive(Clone, Copy, Debug)]
pub struct Connection {
    pub input: Id,
    pub output: Id,
    pub weight: i64,
    pub id_counter: u64,
}

/// Magnitude of a fixed-point value.
pub open spec fn abs_units(x: int) -> int {
    if x < 0 {
        -x
    } else {
        x
    }
}

/// What the contraction scheme computes, step by step: while the perturbed
/// weight falls outside the cap, the perturbation is replaced by half its
/// magnitude with flipped sign. The pair carries the bounded value and the
/// number of contraction steps taken. For a weight within the cap a zero
/// perturbation is already in bound, so the middle branch never applies
/// there; it only makes the recursion total.
pub open spec fn contraction(weight: int, weight_cap: int, perturbation: int) -> (int, int)
    decreases abs_units(perturbation),
{
    if -weight_cap <= weight + perturbation <= weight_cap {
        (weight + perturbation, 0)
    } else if perturbation == 0 {
        (weight, 0)
    } else {
        let halved = if perturbation >= 0 {
            -(perturbation / 2)
        } else {
            (-perturbation) / 2
        };
        let rest = contraction(weight, weight_cap, halved);
        (rest.0, rest.1 + 1)
    }
}

/// What seahash's digest of the three written words is. The digest is a fixed,
/// deterministic function of the written words alone, so it may be named; its
/// value on given words is stated nowhere.
pub uninterp spec fn sea_hash_of(input: u64, output: u64, counter: u64) -> u64;

/// Relies on seahash's `SeaHasher` (`new`, `write_u64`, `finish`): the digest
/// of the three written words depends on those words alone, deterministically,
/// on every machine.
#[verifier::external_body]
fn sea_hash_u64s(input: u64, output: u64, counter: u64) -> (r: u64)
    ensures
        r == sea_hash_of(input, output, counter),
{
    let mut hasher = seahash::SeaHasher::new();
    std::hash::Hasher::write_u64(&mut hasher, input);
    std::hash::Hasher::write_u64(&mut hasher, output);
    std::hash::Hasher::write_u64(&mut hasher, counter);
    std::hash::Hasher::finish(&hasher)
}

impl Connection {
    pub fn new(input: Id, weight: i64, output: Id) -> (c: Connection)
        ensures
            c == (Connection { input, output, weight, id_counter: 0u64 }),
    {
        Connection { input, output, weight, id_counter: 0 }
    }

    pub fn id(&self) -> (r: (Id, Id))
        ensures
            r == (self.input, self.output),
    {
        (self.input, self.output)
    }

    /// Mint a fresh id by mixing `input`, `output` and the current counter
    /// through a fixed deterministic hash, then advance the counter. As long
    /// as the counter strictly advances, repeated derivation yields a stream
    /// of ids that collide only by hash-space exhaustion.
    pub fn next_id(&mut self) -> (r: Id)
        requires
            old(self).id_counter < u64::MAX,
        ensures
            r.0 == sea_hash_of(old(self).input.0, old(self).output.0, old(self).id_counter),
            final(self).id_counter == old(self).id_counter + 1,
            final(self).input == old(self).input,
            final(self).output == old(self).output,
            final(self).weight == old(self).weight,
    {
        let digest = sea_hash_u64s(self.input.0, self.output.0, self.id_counter);
        self.id_counter = self.id_counter + 1;
        Id(digest)
    }

    /// Replace the weight by a perturbed value that stays within
    /// `[-weight_cap, weight_cap]`; identity and counter are untouched.
    pub fn perturb_weight(&mut self, weight_cap: i64, rng: &mut rand::rngs::SmallRng)
        requires
            0 <= weight_cap <= MAX_WEIGHT_CAP,
            -weight_cap <= old(self).weight <= weight_cap,
        ensures
            -weight_cap <= final(self).weight <= weight_cap,
            old(self).weight - 6 * WEIGHT_SCALE <= final(self).weight <= old(self).weight + 6
                * WEIGHT_SCALE,
            final(self).input == old(self).input,
            final(self).output == old(self).output,
            final(self).id_counter == old(self).id_counter,
    {
        self.weight = Self::weight_perturbation(self.weight, weight_cap, rng);
    }

    /// Sample an approximately normal perturbation (Irwin-Hall: twelve uniform
    /// values summed, recentred) and contract it toward zero until the
    /// perturbed weight lies within `[-weight_cap, weight_cap]`.
    pub fn weight_perturbation(
        weight: i64,
        weight_cap: i64,
        rng: &mut rand::rngs::SmallRng,
    ) -> (r: i64)
        requires
            0 <= weight_cap <= MAX_WEIGHT_CAP,
            -weight_cap <= weight <= weight_cap,
        ensures
            -weight_cap <= r <= weight_cap,
            weight - 6 * WEIGHT_SCALE <= r <= weight + 6 * WEIGHT_SCALE,
    {
        let perturbation = Self::irwin_hall_sample(rng);
        Self::bound_perturbation(weight, weight_cap, perturbation).0
    }

    /// Twelve independent uniform draws from `[0, 1)` summed and recentred by
    /// six: a zero-mean variate approximating a unit normal.
    fn irwin_hall_sample(rng: &mut rand::rngs::SmallRng) -> (p: i64)
        ensures
            -6 * WEIGHT_SCALE <= p <= 6 * WEIGHT_SCALE,
    {
        let mut sum: i64 = 0;
        let mut k: usize = 0;
        while k < 12
            invariant
                k <= 12,
                0 <= sum <= (k as int) * 1_000_000,
            decreases 12 - k,
        {
            let draw = below(rng, WEIGHT_SCALE as u64);
            sum = sum + (draw as i64);
            k = k + 1;
        }
        sum - 6 * WEIGHT_SCALE
    }

    /// The contraction scheme: while `weight + perturbation` falls outside
    /// `[-weight_cap, weight_cap]`, replace the perturbation by half its value
    /// with the opposite sign. The result is exactly what the `contraction`
    /// spec function computes; halving converges geometrically, so the loop
    /// runs a small bounded number of steps and never moves the weight by
    /// more than the sample's own magnitude.
    pub fn bound_perturbation(weight: i64, weight_cap: i64, perturbation: i64) -> (r: (i64, u64))
        requires
            0 <= weight_cap <= MAX_WEIGHT_CAP,
            -weight_cap <= weight <= weight_cap,
            -6 * WEIGHT_SCALE <= perturbation <= 6 * WEIGHT_SCALE,
        ensures
            (r.0 as int, r.1 as int) == contraction(
                weight as int,
                weight_cap as int,
                perturbation as int,
            ),
            -weight_cap <= r.0 <= weight_cap,
            weight - abs_units(perturbation as int) <= r.0 <= weight + abs_units(
                perturbation as int,
            ),
            r.1 <= 23,
    {
        let mut pert: i64 = perturbation;
        let mut steps: u64 = 0;
        proof {
            lemma2_to64();
        }
        while weight + pert > weight_cap || weight + pert < -weight_cap
            invariant
                0 <= weight_cap <= MAX_WEIGHT_CAP,
                -weight_cap <= weight <= weight_cap,
                steps <= 23,
                -8_388_608 < pert < 8_388_608,
                -(pow2((23 - steps) as nat) as int) < pert < pow2((23 - steps) as nat) as int,
                abs_units(pert as int) <= abs_units(perturbation as int),
                contraction(weight as int, weight_cap as int, perturbation as int) == (
                contraction(weight as int, weight_cap as int, pert as int).0,
                contraction(weight as int, weight_cap as int, pert as int).1 + steps,
                ),
            decreases 23 - steps,
        {
            proof {
                // The weight alone is in bound, so a perturbation that pushes
                // it out cannot be zero; a nonzero perturbation rules out the
                // exhausted step budget, where the magnitude bound is below 1.
                assert(pert != 0);
                if steps == 23 {
                    assert(pow2(0) == 1) by {
                        lemma2_to64();
                    }
                    assert(false);
                }
                lemma_pow2_unfold((23 - steps) as nat);
                lemma_pow2_pos((23 - steps - 1) as nat);
            }
            let magnitude: u64 = if pert >= 0 {
                pert as u64
            } else {
                (-pert) as u64
            };
            let half: u64 = magnitude / 2;
            let ghost previous = pert as int;
            pert = if pert >= 0 {
                -(half as i64)
            } else {
                half as i64
            };
            proof {
                // the executable halving is the spec function's one step
                assert(pert as int == if previous >= 0 {
                    -(previous / 2)
                } else {
                    (-previous) / 2
                });
                assert(contraction(weight as int, weight_cap as int, previous) == (
                contraction(weight as int, weight_cap as int, pert as int).0,
                contraction(weight as int, weight_cap as int, pert as int).1 + 1,
                ));
            }
            steps = steps + 1;
        }
        (weight + pert, steps)
    }

    /// Per-gene merge for crossover: the child keeps this gene's structural
    /// fields (`input`, `output`, `id_counter`) and adopts the other parent's
    /// mutable field (`weight`).
    pub fn recombine(&self, other: &Self) -> (child: Connection)
        ensures
            child.input == self.input,
            child.output == self.output,
            child.id_counter == self.id_counter,
            child.weight == other.weight,
    {
        Connection { weight: other.weight, ..*self }
    }
}

/// Connections compare by identity alone: the `(input, output)` pair. Weight
/// and counter take no part in equality.
impl PartialEq for Connection {
    fn eq(&self, other: &Self) -> (r: bool) {
        self.input == other.input && self.output == other.output
    }
}

impl Eq for Connection {

}

impl vstd::std_specs::cmp::PartialEqSpecImpl for Connection {
    open spec fn obeys_eq_spec() -> bool {
        true
    }

    open spec fn eq_spec(&self, other: &Self) -> bool {
        self.input == other.input && self.output == other.output
    }
}

} // verus!
