use vstd::prelude::*;

verus! {

pub const X1_MULTIPLIER: i32 = 0x4c1906;

pub const X2_MULTIPLIER: i32 = 0x5ac0db;

pub const Z1_MULTIPLIER: i64 = 0x4307a7;

pub const Z2_MULTIPLIER: i32 = 0x5f24f;

pub const SEED_XOR: i64 = 0x3ad8025f;

/// The seed of cell `(x, z)` in the world with seed `world_seed`, in the
/// fixed-width arithmetic of the generator: 32-bit wrapping products for the
/// `x` terms and the linear `z` term, the square of `z` wrapped to 32 bits and
/// then multiplied in 64 bits, a 64-bit wrapping sum, then a fixed xor mask.
pub open spec fn cell_seed(world_seed: i64, x: i32, z: i32) -> i64 {
    let x1 = x.wrapping_mul(x).wrapping_mul(X1_MULTIPLIER) as i64;
    let x2 = x.wrapping_mul(X2_MULTIPLIER) as i64;
    let z1 = (z.wrapping_mul(z) as i64).wrapping_mul(Z1_MULTIPLIER);
    let z2 = z.wrapping_mul(Z2_MULTIPLIER) as i64;
    world_seed.wrapping_add(x1).wrapping_add(x2).wrapping_add(z1).wrapping_add(z2) ^ SEED_XOR
}

/// Derives the seed of cell `(x, z)`; total, and a function of its arguments alone.
pub fn calculate_seed(world_seed: i64, x: i32, z: i32) -> (r: i64)
    ensures
        r == cell_seed(world_seed, x, z),
{
    let x1 = x.wrapping_mul(x).wrapping_mul(X1_MULTIPLIER) as i64;
    let x2 = x.wrapping_mul(X2_MULTIPLIER) as i64;
    let z1 = (z.wrapping_mul(z) as i64).wrapping_mul(Z1_MULTIPLIER);
    let z2 = z.wrapping_mul(Z2_MULTIPLIER) as i64;
    world_seed.wrapping_add(x1).wrapping_add(x2).wrapping_add(z1).wrapping_add(z2) ^ SEED_XOR
}

} // verus!
