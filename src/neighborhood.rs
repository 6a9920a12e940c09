use vstd::prelude::*;

use crate::classify::{is_excluded, is_slime_chunk};
use crate::seed::{calculate_seed, cell_seed};

verus! {

/// Whether cell `(x, z)` of the world is excluded.
pub open spec fn excluded_at(world_seed: i64, x: int, z: int) -> bool {
    is_excluded(cell_seed(world_seed, x as i32, z as i32))
}

/// 1 for an excluded cell, 0 for another.
pub open spec fn excluded_tally(world_seed: i64, x: int, z: int) -> int {
    if excluded_at(world_seed, x, z) { 1 } else { 0 }
}

/// Excluded cells among `(x, z - 1)`, `(x, z)` and `(x, z + 1)`.
pub open spec fn column_count(world_seed: i64, x: int, z: int) -> int {
    excluded_tally(world_seed, x, z - 1) + excluded_tally(world_seed, x, z)
        + excluded_tally(world_seed, x, z + 1)
}

/// Excluded cells in the 3x3 block centred on `(x, z)`, the centre included.
pub open spec fn neighbor_count(world_seed: i64, x: int, z: int) -> int {
    column_count(world_seed, x - 1, z) + column_count(world_seed, x, z)
        + column_count(world_seed, x + 1, z)
}

/// The score of cell `(x, z)`: -1 when it is excluded itself, else the number
/// of excluded cells in its 3x3 block.
pub open spec fn cell_score_of(world_seed: i64, x: int, z: int) -> int {
    if excluded_at(world_seed, x, z) {
        -1
    } else {
        neighbor_count(world_seed, x, z)
    }
}

/// A score is -1 or a count of at most nine cells.
pub proof fn lemma_score_range(world_seed: i64, x: int, z: int)
    ensures
        -1 <= cell_score_of(world_seed, x, z) <= 9,
        cell_score_of(world_seed, x, z) == -1 <==> excluded_at(world_seed, x, z),
{
}

/// A coordinate whose two neighbours on the axis are 32-bit integers too.
pub open spec fn interior(c: int) -> bool {
    i32::MIN < c < i32::MAX
}

/// Excluded cells `(x, z + dz)` with `-1 <= dz < k`.
spec fn column_prefix(world_seed: i64, x: int, z: int, k: int) -> int
    decreases k + 1,
{
    if k <= -1 {
        0
    } else {
        column_prefix(world_seed, x, z, k - 1) + excluded_tally(world_seed, x, z + k - 1)
    }
}

/// Excluded cells `(x + dx, z + dz)` with `-1 <= dx < j` and `-1 <= dz <= 1`.
spec fn block_prefix(world_seed: i64, x: int, z: int, j: int) -> int
    decreases j + 1,
{
    if j <= -1 {
        0
    } else {
        block_prefix(world_seed, x, z, j - 1) + column_count(world_seed, x + j - 1, z)
    }
}

/// Counts the excluded cells in the 3x3 block centred on `(x, z)`, the centre included.
pub fn get_slime_neighbor_count(world_seed: i64, x: i32, z: i32) -> (r: i32)
    requires
        interior(x as int),
        interior(z as int),
    ensures
        r == neighbor_count(world_seed, x as int, z as int),
        0 <= r <= 9,
{
    let mut count: i32 = 0;
    let mut dx: i32 = -1;
    while dx <= 1
        invariant
            -1 <= dx <= 2,
            interior(x as int),
            interior(z as int),
            count == block_prefix(world_seed, x as int, z as int, dx as int),
            0 <= count <= 3 * (dx + 1),
        decreases 2 - dx,
    {
        let mut dz: i32 = -1;
        while dz <= 1
            invariant
                -1 <= dx <= 1,
                -1 <= dz <= 2,
                interior(x as int),
                interior(z as int),
                count == block_prefix(world_seed, x as int, z as int, dx as int) + column_prefix(
                    world_seed,
                    x + dx,
                    z as int,
                    dz as int,
                ),
                0 <= count <= 3 * (dx + 1) + (dz + 1),
            decreases 2 - dz,
        {
            let neighbor_x = x + dx;
            let neighbor_z = z + dz;
            let neighbor_seed = calculate_seed(world_seed, neighbor_x, neighbor_z);
            if is_slime_chunk(neighbor_seed) {
                count += 1;
            }
            dz += 1;
        }
        proof {
            reveal_with_fuel(column_prefix, 4);
        }
        dx += 1;
    }
    proof {
        reveal_with_fuel(block_prefix, 4);
    }
    count
}

/// Scores cell `(x, z)`: -1 when it is excluded, else the excluded cells of its 3x3 block.
pub fn cell_score(world_seed: i64, x: i32, z: i32) -> (r: i32)
    requires
        interior(x as int),
        interior(z as int),
    ensures
        r == cell_score_of(world_seed, x as int, z as int),
        -1 <= r <= 9,
{
    if is_slime_chunk(calculate_seed(world_seed, x, z)) {
        -1
    } else {
        get_slime_neighbor_count(world_seed, x, z)
    }
}

} // verus!
