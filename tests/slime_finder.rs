use slime_finder::{
    calculate_seed, cell_score, combine, find_best_chunk, get_slime_neighbor_count,
    is_slime_chunk, reduce_candidates, region_coordinates, score_candidate, squared_distance,
    Candidate,
};

fn cand(x: i32, z: i32, score: i32) -> Candidate {
    Candidate { x, z, score }
}

fn excluded(world_seed: i64, x: i32, z: i32) -> bool {
    is_slime_chunk(calculate_seed(world_seed, x, z))
}

#[test]
fn seed_known_values() {
    assert_eq!(calculate_seed(0, 0, 0), 987234911);
    assert_eq!(calculate_seed(12345, 0, 0), 987247206);
    assert_eq!(calculate_seed(12345, 3, -7), 716187793);
    assert_eq!(calculate_seed(-4172144997902289642, 10, 20), -4172144994661128889);
    assert_eq!(calculate_seed(1, -5, 5), 915024501);
    assert_eq!(calculate_seed(2147483647, 100, -100), 44070934048);
}

#[test]
fn seed_wraps_at_extreme_coordinates() {
    assert_eq!(calculate_seed(0, i32::MAX, i32::MIN), -987145612);
}

#[test]
fn derivation_and_classification_are_deterministic() {
    for &(w, x, z) in &[(0i64, 0i32, 0i32), (12345, 3, -7), (-4172144997902289642, 10, 20)] {
        let a = calculate_seed(w, x, z);
        let b = calculate_seed(w, x, z);
        assert_eq!(a, b);
        assert_eq!(is_slime_chunk(a), is_slime_chunk(b));
    }
}

#[test]
fn classification_golden_vectors() {
    assert!(excluded(-4172144997902289642, 10, 20));
    assert!(!excluded(0, 0, 0));
    assert!(!excluded(12345, 3, -7));
    assert!(!excluded(1, -5, 5));
    for &(x, z) in &[(-5, 5), (-2, 0), (-1, 6), (1, -3), (2, -3), (2, 2)] {
        assert!(excluded(0, x, z), "({}, {}) of world 0 is excluded", x, z);
    }
    for &(x, z) in &[(-4, 0), (-2, -4), (-2, 1), (-2, 4), (-1, 2)] {
        assert!(excluded(12345, x, z), "({}, {}) of world 12345 is excluded", x, z);
    }
    assert!(excluded(7, 0, 0));
    assert!(excluded(12, 0, 0));
}

#[test]
fn classification_retries_a_rejected_draw() {
    // The first 31-bit draw of this seed is 2147483641, which the bounded draw
    // rejects; the second draw, 548318350, is a multiple of ten.
    assert!(is_slime_chunk(233206703993355));
}

#[test]
fn neighbor_count_includes_the_cell_itself() {
    assert_eq!(get_slime_neighbor_count(0, 0, 0), 0);
    assert_eq!(get_slime_neighbor_count(0, 1, 1), 1);
    assert_eq!(get_slime_neighbor_count(12345, -2, 3), 2);
    assert_eq!(get_slime_neighbor_count(-4172144997902289642, 0, 0), 2);
    // An excluded cell counts itself.
    assert!(excluded(0, 2, 2));
    let own = get_slime_neighbor_count(0, 2, 2);
    let mut by_hand = 0;
    for dx in -1..=1 {
        for dz in -1..=1 {
            if excluded(0, 2 + dx, 2 + dz) {
                by_hand += 1;
            }
        }
    }
    assert_eq!(own, by_hand);
    assert!(own >= 1);
}

#[test]
fn score_of_cells() {
    assert_eq!(cell_score(0, 0, 0), 0);
    assert_eq!(cell_score(0, 1, 1), 1);
    assert_eq!(cell_score(12345, -2, 3), 2);
    assert_eq!(cell_score(-4172144997902289642, 0, 0), 2);
    assert_eq!(cell_score(-4172144997902289642, 1, 1), -1);
    assert_eq!(cell_score(-4172144997902289642, -2, 3), -1);
    assert_eq!(cell_score(7, 2147483646, -2147483647), 0);
}

#[test]
fn squared_distance_values() {
    assert_eq!(squared_distance(0, 0), 0);
    assert_eq!(squared_distance(3, -4), 25);
    assert_eq!(squared_distance(-7, 0), 49);
    assert_eq!(squared_distance(i32::MIN, i32::MIN), 1u64 << 63);
}

#[test]
fn combine_prefers_higher_score() {
    assert_eq!(combine(cand(5, 5, 2), cand(9, 9, 3)), cand(9, 9, 3));
    assert_eq!(combine(cand(9, 9, 3), cand(5, 5, 2)), cand(9, 9, 3));
}

#[test]
fn combine_tie_break() {
    // Equal scores: the strictly nearer cell wins, in either order.
    assert_eq!(combine(cand(3, 3, 4), cand(1, -1, 4)), cand(1, -1, 4));
    assert_eq!(combine(cand(1, -1, 4), cand(3, 3, 4)), cand(1, -1, 4));
    // Equal scores and equal distances: the accumulator stays.
    assert_eq!(combine(cand(1, 0, 4), cand(0, 1, 4)), cand(1, 0, 4));
    assert_eq!(combine(cand(0, 1, 4), cand(1, 0, 4)), cand(0, 1, 4));
    assert_eq!(combine(cand(2, 2, 4), cand(2, 2, 4)), cand(2, 2, 4));
}

#[test]
fn sentinel_is_the_origin_with_minus_one() {
    assert_eq!(Candidate::sentinel(), cand(0, 0, -1));
    assert_eq!(reduce_candidates(&Vec::new()), cand(0, 0, -1));
    assert_eq!(reduce_candidates(&vec![cand(4, 4, -1), cand(-3, 1, -1)]), cand(0, 0, -1));
    assert_eq!(reduce_candidates(&vec![cand(4, 4, -1), cand(6, 1, 0)]), cand(6, 1, 0));
}

#[test]
fn split_reduction_matches_sequential_fold() {
    let items = vec![
        cand(2, 2, 1),
        cand(-1, 0, 3),
        cand(5, 0, -1),
        cand(0, 1, 3),
        cand(3, 3, 3),
        cand(1, 0, 3),
        cand(-4, 4, 2),
    ];
    let whole = reduce_candidates(&items);
    assert_eq!(whole, cand(-1, 0, 3));
    for k in 0..=items.len() {
        let left = reduce_candidates(&items[..k].to_vec());
        let right = reduce_candidates(&items[k..].to_vec());
        assert_eq!(combine(left, right), whole);
        for j in k..=items.len() {
            let a = reduce_candidates(&items[..k].to_vec());
            let b = reduce_candidates(&items[k..j].to_vec());
            let c = reduce_candidates(&items[j..].to_vec());
            assert_eq!(combine(combine(a, b), c), whole);
            assert_eq!(combine(a, combine(b, c)), whole);
        }
    }
}

#[test]
fn region_lists_cells_by_x_then_z() {
    assert_eq!(region_coordinates(0), vec![(0, 0)]);
    assert_eq!(
        region_coordinates(1),
        vec![(-1, -1), (-1, 0), (-1, 1), (0, -1), (0, 0), (0, 1), (1, -1), (1, 0), (1, 1)]
    );
    assert_eq!(region_coordinates(5).len(), 121);
}

#[test]
fn score_candidate_pairs_cell_and_score() {
    assert_eq!(score_candidate(0, 1, 1), cand(1, 1, 1));
    assert_eq!(score_candidate(-4172144997902289642, 1, 1), cand(1, 1, -1));
}

#[test]
fn search_known_results() {
    assert_eq!(find_best_chunk(0, 1), cand(-1, 0, 1));
    assert_eq!(find_best_chunk(0, 3), cand(3, 3, 3));
    assert_eq!(find_best_chunk(0, 10), cand(3, 3, 3));
    assert_eq!(find_best_chunk(12345, 1), cand(-1, 1, 2));
    assert_eq!(find_best_chunk(12345, 10), cand(-8, 2, 4));
    assert_eq!(find_best_chunk(-4172144997902289642, 1), cand(0, 0, 2));
    assert_eq!(find_best_chunk(-4172144997902289642, 10), cand(2, 0, 3));
    assert_eq!(find_best_chunk(42, 3), cand(-2, 0, 3));
    assert_eq!(find_best_chunk(42, 10), cand(-1, 9, 4));
}

#[test]
fn search_radius_zero() {
    assert_eq!(find_best_chunk(0, 0), cand(0, 0, 0));
    assert_eq!(find_best_chunk(-4172144997902289642, 0), cand(0, 0, 2));
    assert_eq!(find_best_chunk(42, 0), cand(0, 0, cell_score(42, 0, 0)));
}

#[test]
fn search_all_excluded_region() {
    assert!(excluded(7, 0, 0));
    assert_eq!(find_best_chunk(7, 0), cand(0, 0, -1));
    assert_eq!(find_best_chunk(17, 0), cand(0, 0, -1));
}

#[test]
fn parallel_search_matches_sequential_fold() {
    for &(w, r) in &[(0i64, 6i32), (12345, 7), (42, 5)] {
        let cells = region_coordinates(r);
        let scored: Vec<Candidate> = cells.iter().map(|&(x, z)| score_candidate(w, x, z)).collect();
        assert_eq!(find_best_chunk(w, r), reduce_candidates(&scored));
        // The same cells in another order give the same score and distance.
        let mut reversed = scored.clone();
        reversed.reverse();
        let a = reduce_candidates(&scored);
        let b = reduce_candidates(&reversed);
        assert_eq!(a.score, b.score);
        assert_eq!(squared_distance(a.x, a.z), squared_distance(b.x, b.z));
    }
}
