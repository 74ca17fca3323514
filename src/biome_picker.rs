use vstd::prelude::*;

use crate::utils::{default_hash_of, hash_u64};

verus! {

/// A closed, enumerable set of biome values.
pub trait Biome: Copy {
    /// Every variant that a uniform draw may return.
    fn variants() -> &'static [Self];
}

/// The weight that stands for probability one: weights are fixed-point
/// fractions with 24 fractional bits, the resolution of the cell roll.
pub const WEIGHT_ONE: u32 = 0x100_0000;

/// Chooses the biome of a cell from the cell's hash.
pub enum BiomeGenerator<BiomeT: Biome> {
    /// Every declared variant is equally likely.
    UniformDistribution,
    /// Each biome is chosen with its weight, in units of `WEIGHT_ONE`.
    Weighted(Vec<(BiomeT, u32)>),
}

/// The first `u32` that rand's `StdRng` yields after `seed_from_u64(seed)`.
pub uninterp spec fn std_rng_first_u32(seed: u64) -> u32;

/// Relies on rand's `StdRng::seed_from_u64` and `Rng::random::<u32>`: a generator
/// seeded from a `u64` produces a fixed stream, so its first word depends on the
/// seed alone.
#[verifier::external_body]
fn first_u32_of_seed(seed: u64) -> (r: u32)
    ensures
        r == std_rng_first_u32(seed),
{
    let mut rng = <rand::rngs::StdRng as rand::SeedableRng>::seed_from_u64(seed);
    rand::Rng::random::<u32>(&mut rng)
}

/// The seed of a cell's generator: the world seed mixed with both cell
/// coordinates, distinct from the hash used by uniform draws.
pub open spec fn cell_rng_seed_of(seed: u64, x: i32, z: i32) -> u64 {
    seed ^ ((x as u64) << 32u64) ^ (z as u64)
}

/// The cell's roll in `[0, WEIGHT_ONE)`: the 24 high bits of the first word of
/// its generator, which is a uniform draw in `[0, 1)` scaled by `WEIGHT_ONE`.
pub open spec fn cell_roll(seed: u64, x: i32, z: i32) -> u32 {
    std_rng_first_u32(cell_rng_seed_of(seed, x, z)) >> 8u32
}

/// Sum of the first `n` weights.
pub open spec fn weight_prefix<BiomeT>(ws: Seq<(BiomeT, u32)>, n: int) -> int
    decreases n,
{
    if n <= 0 {
        0
    } else {
        weight_prefix(ws, n - 1) + ws[n - 1].1
    }
}

/// Index of the first entry, from `i` on, whose running weight total exceeds
/// `roll`; the last entry when none does.
pub open spec fn first_reached<BiomeT>(ws: Seq<(BiomeT, u32)>, roll: int, i: int) -> int
    decreases ws.len() - i,
{
    if i >= ws.len() {
        ws.len() - 1
    } else if roll < weight_prefix(ws, i + 1) {
        i
    } else {
        first_reached(ws, roll, i + 1)
    }
}

/// Whether the generator has anything to choose from, given the declared variants.
pub open spec fn has_choices<BiomeT: Biome>(
    g: BiomeGenerator<BiomeT>,
    variants: Seq<BiomeT>,
) -> bool {
    match g {
        BiomeGenerator::UniformDistribution => variants.len() > 0,
        BiomeGenerator::Weighted(ws) => ws@.len() > 0,
    }
}

/// The biome that the generator gives cell `(x, z)`, given the declared variants.
pub open spec fn picked<BiomeT: Biome>(
    g: BiomeGenerator<BiomeT>,
    variants: Seq<BiomeT>,
    seed: u64,
    x: i32,
    z: i32,
) -> Option<BiomeT> {
    if !has_choices(g, variants) {
        None
    } else {
        match g {
            BiomeGenerator::UniformDistribution => Some(
                variants[(default_hash_of(seed, x, z) % (variants.len() as u64)) as int],
            ),
            BiomeGenerator::Weighted(ws) => Some(
                ws@[first_reached(ws@, cell_roll(seed, x, z) as int, 0)].0,
            ),
        }
    }
}

/// Seed of the generator that a weighted draw uses for cell `(x, z)`.
pub fn cell_rng_seed(seed: u64, x: i32, z: i32) -> (r: u64)
    ensures
        r == cell_rng_seed_of(seed, x, z),
{
    seed ^ ((x as u64) << 32u64) ^ (z as u64)
}

impl<BiomeT: Biome + 'static> BiomeGenerator<BiomeT> {
    /// Picks the biome of cell `(cell_x, cell_z)`, a uniform draw being made
    /// over `BiomeT::variants()`. `None` exactly when there is nothing to choose
    /// from. A weighted draw does not depend on the declared variants.
    pub fn pick_biome(&self, seed: u64, cell_x: i32, cell_z: i32) -> (r: Option<BiomeT>)
        ensures
            exists|variants: Seq<BiomeT>| r == picked(*self, variants, seed, cell_x, cell_z),
            self is Weighted ==> r == picked(*self, Seq::empty(), seed, cell_x, cell_z),
    {
        let variants = BiomeT::variants();
        let r = self.pick_from(variants, seed, cell_x, cell_z);
        assert(r == picked(*self, variants@, seed, cell_x, cell_z));
        r
    }

    /// Picks the biome of cell `(cell_x, cell_z)`, a uniform draw being made
    /// over `variants`. `None` exactly when there is nothing to choose from.
    pub fn pick_from(&self, variants: &[BiomeT], seed: u64, cell_x: i32, cell_z: i32) -> (r:
        Option<BiomeT>)
        ensures
            r == picked(*self, variants@, seed, cell_x, cell_z),
    {
        match self {
            BiomeGenerator::UniformDistribution => {
                let len = variants.len();
                if len == 0 {
                    None
                } else {
                    let idx = (hash_u64(seed, cell_x, cell_z) % (len as u64)) as usize;
                    Some(variants[idx])
                }
            },
            BiomeGenerator::Weighted(ws) => {
                if ws.len() == 0 {
                    return None;
                }
                let word = first_u32_of_seed(cell_rng_seed(seed, cell_x, cell_z));
                let roll = word >> 8u32;
                let ghost r = roll as int;
                assert(roll < 0x100_0000u32) by (bit_vector)
                    requires
                        roll == word >> 8u32,
                ;
                assert(picked(*self, variants@, seed, cell_x, cell_z) == Some(
                    ws@[first_reached(ws@, r, 0)].0,
                ));
                let mut cumulative: u64 = 0;
                let mut i: usize = 0;
                while i < ws.len()
                    invariant
                        r == roll as int,
                        picked(*self, variants@, seed, cell_x, cell_z) == Some(
                            ws@[first_reached(ws@, r, 0)].0,
                        ),
                        roll < WEIGHT_ONE,
                        ws@.len() > 0,
                        i <= ws@.len(),
                        cumulative as int == weight_prefix(ws@, i as int),
                        cumulative <= roll,
                        first_reached(ws@, r, 0) == first_reached(ws@, r, i as int),
                    decreases ws.len() - i,
                {
                    cumulative = cumulative + ws[i].1 as u64;
                    assert(cumulative as int == weight_prefix(ws@, i + 1));
                    if (roll as u64) < cumulative {
                        assert(first_reached(ws@, r, i as int) == i);
                        return Some(ws[i].0);
                    }
                    i += 1;
                }
                Some(ws[ws.len() - 1].0)
            },
        }
    }
}

} // verus!
