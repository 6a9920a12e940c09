use vstd::prelude::*;

verus! {

/// Multiplier of the 48-bit linear congruential generator of `java.util.Random`.
pub const LCG_MULTIPLIER: i64 = 0x5_DEEC_E66D;

/// Increment of that generator.
pub const LCG_INCREMENT: i64 = 0xB;

/// The low 48 bits that make up the generator's state.
pub const LCG_MASK: i64 = 0xFFFF_FFFF_FFFF;

/// A cell is excluded when its first bounded draw below this bound is 0.
pub const EXCLUSION_BOUND: i32 = 10;

/// The state of a generator freshly seeded with `seed`: the seed scrambled with
/// the multiplier, cut to 48 bits.
pub open spec fn lcg_start(seed: i64) -> int {
    ((seed ^ LCG_MULTIPLIER) & LCG_MASK) as int
}

/// The state after `n` steps of a generator seeded with `seed`.
pub open spec fn lcg_state(seed: i64, n: nat) -> int
    decreases n,
{
    if n == 0 {
        lcg_start(seed)
    } else {
        (lcg_state(seed, (n - 1) as nat) * LCG_MULTIPLIER + LCG_INCREMENT) % 0x1_0000_0000_0000
    }
}

/// The value of the `n`-th (from 0) 31-bit draw: the top 31 bits of the state
/// that the draw steps to.
pub open spec fn draw_bits(seed: i64, n: nat) -> int {
    lcg_state(seed, n + 1) / 0x2_0000
}

/// A 31-bit draw is kept by the bounded draw when the largest multiple of
/// `bound` not above it, plus `bound - 1`, stays within the signed 32-bit range.
pub open spec fn draw_accepted(bits: int, bound: int) -> bool {
    bits - bits % bound + (bound - 1) <= i32::MAX
}

/// Draw `n` is the first one that the bounded draw keeps.
pub open spec fn first_accepted_draw(seed: i64, bound: int, n: nat) -> bool {
    &&& draw_accepted(draw_bits(seed, n), bound)
    &&& forall|i: nat| i < n ==> !draw_accepted(#[trigger] draw_bits(seed, i), bound)
}

/// `r` is what the bounded draw below `bound` of a generator freshly seeded
/// with `seed` returns: the first kept draw, modulo the bound.
pub open spec fn bounded_draw_is(seed: i64, bound: int, r: int) -> bool {
    exists|n: nat| #[trigger] first_accepted_draw(seed, bound, n) && r == draw_bits(seed, n) % bound
}

/// The classification of a cell seed: excluded when the first bounded draw
/// below ten of a generator seeded with it returns 0.
#[verifier::opaque]
pub open spec fn is_excluded(seed: i64) -> bool {
    bounded_draw_is(seed, EXCLUSION_BOUND as int, 0)
}

/// At most one draw is the first that is kept.
proof fn lemma_first_accepted_unique(seed: i64, bound: int, n: nat, m: nat)
    requires
        first_accepted_draw(seed, bound, n),
        first_accepted_draw(seed, bound, m),
    ensures
        n == m,
{
    if n < m {
        assert(!draw_accepted(draw_bits(seed, n), bound));
    } else if m < n {
        assert(!draw_accepted(draw_bits(seed, m), bound));
    }
}

/// The bounded draw returns one value only.
pub proof fn lemma_bounded_draw_unique(seed: i64, bound: int, r: int, s: int)
    requires
        bounded_draw_is(seed, bound, r),
        bounded_draw_is(seed, bound, s),
    ensures
        r == s,
{
    let n = choose|n: nat| #[trigger] first_accepted_draw(seed, bound, n) && r == draw_bits(seed, n) % bound;
    let m = choose|m: nat| #[trigger] first_accepted_draw(seed, bound, m) && s == draw_bits(seed, m) % bound;
    lemma_first_accepted_unique(seed, bound, n, m);
}

/// Relies on jandom::Random::new and Random::next_i32_bounded: a generator
/// seeded as `java.util.Random` is, whose bounded draw, for a bound that is not
/// a power of two, steps the 48-bit state and takes its top 31 bits until a draw
/// is kept, and returns that draw modulo the bound.
#[verifier::external_body]
fn java_bounded_draw(seed: i64, bound: i32) -> (r: i32)
    requires
        bound > 0,
        bound & ((bound - 1) as i32) != 0,
    ensures
        bounded_draw_is(seed, bound as int, r as int),
{
    jandom::Random::new(seed).next_i32_bounded(bound)
}

/// Classifies a cell seed: a fresh generator is seeded with it and its first
/// bounded draw below ten decides.
pub fn is_slime_chunk(seed: i64) -> (r: bool)
    ensures
        r == is_excluded(seed),
{
    assert(10i32 & 9i32 != 0) by (bit_vector);
    let v = java_bounded_draw(seed, EXCLUSION_BOUND);
    proof {
        reveal(is_excluded);
        if is_excluded(seed) {
            lemma_bounded_draw_unique(seed, EXCLUSION_BOUND as int, v as int, 0);
        }
    }
    v == 0
}

} // verus!
