//! Locates, inside a square region of a seeded world grid, the non-excluded
//! cell with the most excluded cells in its 3x3 block, nearest the origin on ties.
//!
//! Excluded cells are the "slime chunks" of the Java edition world generator:
//! a cell seed is derived from the world seed and the cell, and the cell is
//! excluded when the first bounded draw of `java.util.Random` seeded with it is 0.
//!
//! - `seed`: the per-cell seed.
//! - `classify`: the classification of a cell seed.
//! - `neighborhood`: the score of a cell from its 3x3 block.
//! - `search`: the combine rule, its laws, and the parallel search over a square.

pub mod classify;
pub mod neighborhood;
pub mod search;
pub mod seed;

pub use classify::is_slime_chunk;
pub use neighborhood::{cell_score, get_slime_neighbor_count};
pub use search::{
    combine, find_best_chunk, reduce_candidates, region_coordinates, score_candidate,
    squared_distance, Candidate,
};
pub use seed::calculate_seed;
