use rayon::iter::{IntoParallelRefIterator, ParallelIterator};
use vstd::prelude::*;

use crate::neighborhood::{cell_score, cell_score_of, excluded_at, interior, lemma_score_range};

verus! {

/// A cell together with its score: the unit that the search folds.
#[derive(Clone, Copy, Debug, PartialEq, Eq, Structural)]
pub struct Candidate {
    pub x: i32,
    pub z: i32,
    pub score: i32,
}

/// The squared distance of cell `(x, z)` from the origin.
pub open spec fn dist(x: i32, z: i32) -> int {
    x * x + z * z
}

/// The squared distance of a candidate's cell from the origin.
pub open spec fn cand_dist(c: Candidate) -> int {
    dist(c.x, c.z)
}

/// The accumulator the search starts from: the origin with score -1.
pub open spec fn sentinel() -> Candidate {
    Candidate { x: 0, z: 0, score: -1i32 }
}

/// `b` ranks strictly above `a`: a higher score, or an equal score and a cell
/// strictly nearer the origin.
pub open spec fn ranks_above(b: Candidate, a: Candidate) -> bool {
    b.score > a.score || (b.score == a.score && cand_dist(b) < cand_dist(a))
}

/// The combine rule of the search: `b` replaces the accumulator `a` only when
/// it ranks strictly above it.
pub open spec fn better_of(a: Candidate, b: Candidate) -> Candidate {
    if ranks_above(b, a) {
        b
    } else {
        a
    }
}

/// `acc` combined with each candidate of `s` in turn.
pub open spec fn fold_from(acc: Candidate, s: Seq<Candidate>) -> Candidate
    decreases s.len(),
{
    if s.len() == 0 {
        acc
    } else {
        better_of(fold_from(acc, s.drop_last()), s.last())
    }
}

/// The result of folding `s` from the sentinel.
pub open spec fn reduced(s: Seq<Candidate>) -> Candidate {
    fold_from(sentinel(), s)
}

/// How a parallel reduction splits its items: a group folded from the sentinel
/// by one worker, or a split after the first `at` items into two halves that
/// are reduced on their own and then combined, left before right.
pub enum SplitTree {
    Leaf,
    Split { at: int, left: Box<SplitTree>, right: Box<SplitTree> },
}

/// Each split of `t` falls within the `len` items it splits.
pub open spec fn split_points_valid(len: int, t: SplitTree) -> bool
    decreases t,
{
    match t {
        SplitTree::Leaf => true,
        SplitTree::Split { at, left, right } => 0 <= at <= len && split_points_valid(at, *left)
            && split_points_valid(len - at, *right),
    }
}

/// What a parallel reduction of `items` split as `t` gives.
pub open spec fn tree_result(items: Seq<Candidate>, t: SplitTree) -> Candidate
    decreases t,
{
    match t {
        SplitTree::Leaf => reduced(items),
        SplitTree::Split { at, left, right } => better_of(
            tree_result(items.take(at), *left),
            tree_result(items.skip(at), *right),
        ),
    }
}

/// The combine rule is associative.
pub proof fn lemma_combine_associative(a: Candidate, b: Candidate, c: Candidate)
    ensures
        better_of(better_of(a, b), c) == better_of(a, better_of(b, c)),
{
}

/// A fold never ends below where it started.
proof fn lemma_fold_not_below(acc: Candidate, s: Seq<Candidate>)
    ensures
        !ranks_above(acc, fold_from(acc, s)),
    decreases s.len(),
{
    if s.len() > 0 {
        lemma_fold_not_below(acc, s.drop_last());
    }
}

/// Folding from an accumulator that the sentinel cannot displace is combining
/// that accumulator with the fold from the sentinel.
proof fn lemma_fold_from_split(x: Candidate, s: Seq<Candidate>)
    requires
        better_of(x, sentinel()) == x,
    ensures
        fold_from(x, s) == better_of(x, reduced(s)),
    decreases s.len(),
{
    if s.len() > 0 {
        lemma_fold_from_split(x, s.drop_last());
        lemma_combine_associative(x, reduced(s.drop_last()), s.last());
    }
}

/// Folding a concatenation is folding the second part from the fold of the first.
proof fn lemma_fold_concat(acc: Candidate, a: Seq<Candidate>, b: Seq<Candidate>)
    ensures
        fold_from(acc, a + b) == fold_from(fold_from(acc, a), b),
    decreases b.len(),
{
    if b.len() == 0 {
        assert(a + b =~= a);
    } else {
        assert((a + b).drop_last() =~= a + b.drop_last());
        lemma_fold_concat(acc, a, b.drop_last());
    }
}

/// Reducing two consecutive groups separately and combining the two results,
/// in order, gives what one sequential fold over both gives.
pub proof fn lemma_split_reduction(a: Seq<Candidate>, b: Seq<Candidate>)
    ensures
        reduced(a + b) == better_of(reduced(a), reduced(b)),
{
    lemma_fold_concat(sentinel(), a, b);
    lemma_fold_not_below(sentinel(), a);
    lemma_fold_from_split(reduced(a), b);
}

/// However a parallel reduction splits the items among workers, it gives what
/// the sequential fold of the items gives.
pub proof fn lemma_tree_reduction(items: Seq<Candidate>, t: SplitTree)
    requires
        split_points_valid(items.len() as int, t),
    ensures
        tree_result(items, t) == reduced(items),
    decreases t,
{
    if let SplitTree::Split { at, left, right } = t {
        lemma_tree_reduction(items.take(at), *left);
        lemma_tree_reduction(items.skip(at), *right);
        lemma_split_reduction(items.take(at), items.skip(at));
        assert(items.take(at) + items.skip(at) =~= items);
    }
}

/// No two different candidates of `s` have both the same score and the same
/// distance from the origin.
pub open spec fn no_exact_ties(s: Seq<Candidate>) -> bool {
    forall|a: Candidate, b: Candidate|
        #![trigger s.contains(a), s.contains(b)]
        s.contains(a) && s.contains(b) && a.score == b.score && cand_dist(a) == cand_dist(b) ==> a == b
}

/// The fold keeps the sentinel or one of the items, and neither the sentinel
/// nor any item ranks above what it keeps.
proof fn lemma_reduced_is_maximal(s: Seq<Candidate>)
    ensures
        reduced(s) == sentinel() || s.contains(reduced(s)),
        !ranks_above(sentinel(), reduced(s)),
        forall|i: int| 0 <= i < s.len() ==> !ranks_above(#[trigger] s[i], reduced(s)),
    decreases s.len(),
{
    if s.len() > 0 {
        let p = s.drop_last();
        lemma_reduced_is_maximal(p);
        assert forall|i: int| 0 <= i < s.len() implies !ranks_above(#[trigger] s[i], reduced(s)) by {
            if i < s.len() - 1 {
                assert(s[i] == p[i]);
            }
        }
        if reduced(s) != sentinel() {
            if reduced(s) == reduced(p) {
                let j = choose|j: int| 0 <= j < p.len() && p[j] == reduced(p);
                assert(s[j] == reduced(s));
            } else {
                assert(s[s.len() - 1] == reduced(s));
            }
        }
    }
}

/// Only the origin is at distance 0.
proof fn lemma_dist_zero(c: Candidate)
    requires
        cand_dist(c) == 0,
    ensures
        c.x == 0 && c.z == 0,
{
    assert(c.x == 0 && c.z == 0) by (nonlinear_arith)
        requires
            c.x * c.x + c.z * c.z == 0,
    ;
}

/// Folding the same candidates in another order gives a result with the same
/// score and the same distance from the origin, and the very same candidate
/// when no two different candidates tie on both.
pub proof fn lemma_reorder(s: Seq<Candidate>, t: Seq<Candidate>)
    requires
        s.to_multiset() == t.to_multiset(),
    ensures
        reduced(s).score == reduced(t).score,
        cand_dist(reduced(s)) == cand_dist(reduced(t)),
        no_exact_ties(s) ==> reduced(s) == reduced(t),
{
    let r1 = reduced(s);
    let r2 = reduced(t);
    lemma_reduced_is_maximal(s);
    lemma_reduced_is_maximal(t);
    s.to_multiset_ensures();
    t.to_multiset_ensures();
    if r1 != sentinel() {
        assert(s.to_multiset().count(r1) > 0);
        assert(t.to_multiset().count(r1) > 0);
        assert(t.contains(r1));
        let i = choose|i: int| 0 <= i < t.len() && t[i] == r1;
        assert(!ranks_above(t[i], r2));
    }
    if r2 != sentinel() {
        assert(t.to_multiset().count(r2) > 0);
        assert(s.to_multiset().count(r2) > 0);
        assert(s.contains(r2));
        let i = choose|i: int| 0 <= i < s.len() && s[i] == r2;
        assert(!ranks_above(s[i], r1));
    }
    if no_exact_ties(s) && r1 != r2 {
        if r1 == sentinel() {
            assert(s.contains(r2));
            lemma_dist_zero(r2);
        } else if r2 == sentinel() {
            lemma_dist_zero(r1);
        } else {
            assert(s.contains(r1) && s.contains(r2));
        }
    }
}

/// Splitting the candidates into two groups in any way, reducing each group on
/// its own and combining the two results gives a result with the score and the
/// distance of the sequential fold, and the very same candidate when no two
/// different candidates tie on both.
pub proof fn lemma_partition_reduction(s: Seq<Candidate>, a: Seq<Candidate>, b: Seq<Candidate>)
    requires
        (a + b).to_multiset() == s.to_multiset(),
    ensures
        better_of(reduced(a), reduced(b)).score == reduced(s).score,
        cand_dist(better_of(reduced(a), reduced(b))) == cand_dist(reduced(s)),
        no_exact_ties(s) ==> better_of(reduced(a), reduced(b)) == reduced(s),
{
    lemma_split_reduction(a, b);
    lemma_reorder(s, a + b);
}

impl Candidate {
    /// The accumulator the search starts from: cell `(0, 0)` with score -1.
    pub fn sentinel() -> (r: Candidate)
        ensures
            r == sentinel(),
    {
        Candidate { x: 0, z: 0, score: -1 }
    }
}

/// The squared distance of `(x, z)` from the origin, exact for every pair of
/// 32-bit coordinates.
pub fn squared_distance(x: i32, z: i32) -> (r: u64)
    ensures
        r == dist(x, z),
{
    let wx = x as i64;
    let wz = z as i64;
    proof {
        assert(0 <= wx * wx <= 0x4000_0000_0000_0000) by (nonlinear_arith)
            requires i32::MIN <= wx <= i32::MAX;
        assert(0 <= wz * wz <= 0x4000_0000_0000_0000) by (nonlinear_arith)
            requires i32::MIN <= wz <= i32::MAX;
    }
    let xx = wx * wx;
    let zz = wz * wz;
    (xx as u64) + (zz as u64)
}

/// Combines the accumulator `a` with candidate `b`: the higher score wins; on
/// equal scores the strictly nearer cell wins, and on equal distance `a` stays.
pub fn combine(a: Candidate, b: Candidate) -> (r: Candidate)
    ensures
        r == better_of(a, b),
        b.score > a.score ==> r == b,
        b.score < a.score ==> r == a,
        b.score == a.score && cand_dist(b) < cand_dist(a) ==> r == b,
        b.score == a.score && cand_dist(b) >= cand_dist(a) ==> r == a,
{
    if b.score > a.score {
        b
    } else if b.score == a.score {
        if squared_distance(b.x, b.z) < squared_distance(a.x, a.z) {
            b
        } else {
            a
        }
    } else {
        a
    }
}

/// Folds candidates in order from the sentinel with `combine`.
pub fn reduce_candidates(candidates: &Vec<Candidate>) -> (r: Candidate)
    ensures
        r == reduced(candidates@),
{
    let mut best = Candidate::sentinel();
    let mut i: usize = 0;
    while i < candidates.len()
        invariant
            i <= candidates.len(),
            best == reduced(candidates@.take(i as int)),
        decreases candidates.len() - i,
    {
        proof {
            assert(candidates@.take(i + 1).drop_last() =~= candidates@.take(i as int));
        }
        best = combine(best, candidates[i]);
        i += 1;
    }
    proof {
        assert(candidates@.take(i as int) =~= candidates@);
    }
    best
}

/// The cells `(x, z)` with `-radius <= x, z <= radius`, by `x` and then by `z`.
pub open spec fn region(radius: int) -> Seq<(i32, i32)> {
    let w = 2 * radius + 1;
    Seq::new((w * w) as nat, |i: int| ((i / w - radius) as i32, (i % w - radius) as i32))
}

/// The candidate of cell `c`: the cell with its score.
pub open spec fn candidate_at(world_seed: i64, c: (i32, i32)) -> Candidate {
    Candidate { x: c.0, z: c.1, score: cell_score_of(world_seed, c.0 as int, c.1 as int) as i32 }
}

/// The candidates of `cells`, in order.
pub open spec fn scored(world_seed: i64, cells: Seq<(i32, i32)>) -> Seq<Candidate> {
    cells.map_values(|c: (i32, i32)| candidate_at(world_seed, c))
}

/// The result of the search over the square of the given radius.
pub open spec fn search_result(world_seed: i64, radius: int) -> Candidate {
    reduced(scored(world_seed, region(radius)))
}

/// Cell `(x, z)` stands at index `(x + radius) * (2 * radius + 1) + (z + radius)` of the region.
proof fn lemma_region_index(radius: int, x: int, z: int)
    requires
        0 <= radius,
        -radius <= x <= radius,
        -radius <= z <= radius,
        radius < i32::MAX,
    ensures
        0 <= (x + radius) * (2 * radius + 1) + (z + radius) < (2 * radius + 1) * (2 * radius + 1),
        region(radius)[(x + radius) * (2 * radius + 1) + (z + radius)] == (x as i32, z as i32),
{
    let w = 2 * radius + 1;
    let k = (x + radius) * w + (z + radius);
    assert(0 <= k < w * w) by (nonlinear_arith)
        requires
            w == 2 * radius + 1,
            k == (x + radius) * w + (z + radius),
            0 <= x + radius < w,
            0 <= z + radius < w,
    ;
    vstd::arithmetic::div_mod::lemma_fundamental_div_mod_converse(k, w, x + radius, z + radius);
}

/// Every cell of the region lies in the square of the radius.
proof fn lemma_region_bounds(radius: int, i: int)
    requires
        0 <= radius,
        0 <= i < region(radius).len(),
    ensures
        -radius <= region(radius)[i].0 <= radius,
        -radius <= region(radius)[i].1 <= radius,
        radius < i32::MAX ==> region(radius)[i].0 == i / (2 * radius + 1) - radius,
        radius < i32::MAX ==> region(radius)[i].1 == i % (2 * radius + 1) - radius,
{
    let w = 2 * radius + 1;
    vstd::arithmetic::div_mod::lemma_fundamental_div_mod(i, w);
    let q = i / w;
    let m = i % w;
    assert(0 <= q < w) by (nonlinear_arith)
        requires
            i == w * q + m,
            0 <= m < w,
            0 <= i < w * w,
    ;
}

/// Lists the cells of the square of the given radius, by `x` and then by `z`.
pub fn region_coordinates(radius: i32) -> (r: Vec<(i32, i32)>)
    requires
        0 <= radius < i32::MAX,
    ensures
        r@ == region(radius as int),
{
    let ghost w = 2 * radius + 1;
    let mut cells: Vec<(i32, i32)> = Vec::new();
    let mut x: i32 = -radius;
    proof {
        assert(0 <= w * w) by (nonlinear_arith)
            requires
                w == 2 * radius + 1,
                0 <= radius,
        ;
        assert((x + radius) * w == 0) by (nonlinear_arith)
            requires
                x + radius == 0,
        ;
        assert(cells@ =~= region(radius as int).take(0));
    }
    while x <= radius
        invariant
            0 <= radius < i32::MAX,
            w == 2 * radius + 1,
            -radius <= x <= radius + 1,
            0 <= (x + radius) * w <= w * w,
            cells@ == region(radius as int).take((x + radius) * w),
        decreases radius + 1 - x,
    {
        let mut z: i32 = -radius;
        while z <= radius
            invariant
                0 <= radius < i32::MAX,
                w == 2 * radius + 1,
                -radius <= x <= radius,
                -radius <= z <= radius + 1,
                0 <= (x + radius) * w + (z + radius) <= w * w,
                cells@ == region(radius as int).take((x + radius) * w + (z + radius)),
            decreases radius + 1 - z,
        {
            let ghost k = (x + radius) * w + (z + radius);
            proof {
                lemma_region_index(radius as int, x as int, z as int);
                assert(region(radius as int).take(k + 1) =~= region(radius as int).take(k).push(
                    (x, z),
                ));
            }
            cells.push((x, z));
            z += 1;
        }
        assert((x + radius) * w + (z + radius) == (x + 1 + radius) * w) by (nonlinear_arith)
            requires
                w == 2 * radius + 1,
                z == radius + 1,
        ;
        x += 1;
    }
    proof {
        assert(region(radius as int).take(w * w) =~= region(radius as int));
    }
    cells
}

/// The candidate of cell `(x, z)`.
pub fn score_candidate(world_seed: i64, x: i32, z: i32) -> (r: Candidate)
    requires
        interior(x as int),
        interior(z as int),
    ensures
        r == candidate_at(world_seed, (x, z)),
{
    Candidate { x, z, score: cell_score(world_seed, x, z) }
}

/// Both coordinates of every cell of `cells` have their neighbours in range.
pub open spec fn all_interior(cells: Seq<(i32, i32)>) -> bool {
    forall|i: int| 0 <= i < cells.len() ==> interior(#[trigger] cells[i].0 as int) && interior(cells[i].1 as int)
}

/// `r` is what a parallel reduction of `items` gives under some way of splitting them.
pub open spec fn parallel_result(items: Seq<Candidate>, r: Candidate) -> bool {
    exists|t: SplitTree| split_points_valid(items.len() as int, t) && r == #[trigger] tree_result(items, t)
}

/// Relies on rayon's `par_iter`, `map` and `reduce` over a slice: the items are
/// cut into consecutive groups, each group is folded in order from `identity()`
/// with the reduce operation, and the results of two neighbouring parts are
/// combined with it, left before right.
#[verifier::external_body]
fn parallel_best(world_seed: i64, cells: &Vec<(i32, i32)>) -> (r: Candidate)
    requires
        all_interior(cells@),
    ensures
        parallel_result(scored(world_seed, cells@), r),
{
    cells.par_iter().map(|c| score_candidate(world_seed, c.0, c.1)).reduce(Candidate::sentinel, combine)
}

/// Finds, among the cells with `-radius <= x, z <= radius`, the candidate that
/// the combine rule keeps when folded over all of them from the sentinel: the
/// highest score, then the nearest cell to the origin, then the first in order.
/// The cells are scored and reduced in parallel.
pub fn find_best_chunk(world_seed: i64, radius: i32) -> (r: Candidate)
    requires
        0 <= radius < i32::MAX,
    ensures
        r == search_result(world_seed, radius as int),
{
    let cells = region_coordinates(radius);
    assert forall|i: int| 0 <= i < cells@.len() implies interior(#[trigger] cells@[i].0 as int)
        && interior(cells@[i].1 as int) by {
        lemma_region_bounds(radius as int, i);
    }
    assert(all_interior(cells@));
    let best = parallel_best(world_seed, &cells);
    proof {
        let items = scored(world_seed, cells@);
        let t = choose|t: SplitTree| split_points_valid(items.len() as int, t) && best == #[trigger] tree_result(items, t);
        lemma_tree_reduction(scored(world_seed, cells@), t);
    }
    best
}

/// A squared distance is never negative.
proof fn lemma_dist_nonnegative(c: Candidate)
    ensures
        cand_dist(c) >= 0,
{
    assert(c.x * c.x + c.z * c.z >= 0) by (nonlinear_arith);
}

/// Folding candidates that all score -1 from the sentinel leaves the sentinel.
proof fn lemma_fold_disqualified(s: Seq<Candidate>)
    requires
        forall|i: int| 0 <= i < s.len() ==> (#[trigger] s[i]).score == -1,
    ensures
        reduced(s) == sentinel(),
    decreases s.len(),
{
    if s.len() > 0 {
        lemma_fold_disqualified(s.drop_last());
        lemma_dist_nonnegative(s.last());
    }
}

/// With radius 0 the search looks at cell `(0, 0)` alone and returns it with its score.
pub proof fn lemma_radius_zero(world_seed: i64)
    ensures
        search_result(world_seed, 0) == (Candidate { x: 0, z: 0, score: cell_score_of(world_seed, 0, 0) as i32 }),
{
    let items = scored(world_seed, region(0));
    lemma_region_index(0, 0, 0);
    assert((2 * 0 + 1) * (2 * 0 + 1) == 1int) by (nonlinear_arith);
    assert(region(0).len() == 1);
    assert(items.len() == 1);
    assert(items.drop_last().len() == 0);
    let c = items[0];
    assert(c == candidate_at(world_seed, (0i32, 0i32)));
    assert(fold_from(sentinel(), items.drop_last()) == sentinel());
    assert(reduced(items) == better_of(sentinel(), c));
    lemma_score_range(world_seed, 0, 0);
    assert(cand_dist(c) == 0);
}

/// When every cell of the square is excluded, the search returns the origin with score -1.
pub proof fn lemma_all_excluded(world_seed: i64, radius: int)
    requires
        0 <= radius < i32::MAX,
        forall|x: int, z: int|
            -radius <= x <= radius && -radius <= z <= radius ==> #[trigger] excluded_at(world_seed, x, z),
    ensures
        search_result(world_seed, radius) == sentinel(),
{
    let items = scored(world_seed, region(radius));
    assert forall|i: int| 0 <= i < items.len() implies (#[trigger] items[i]).score == -1 by {
        lemma_region_bounds(radius, i);
        assert(excluded_at(world_seed, region(radius)[i].0 as int, region(radius)[i].1 as int));
    }
    lemma_fold_disqualified(items);
}

} // verus!
