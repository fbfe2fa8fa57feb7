//! The transition oracle: stochastic yes/no decisions for the two kinds of
//! cell transition. Probabilities are fixed-point fractions: a value `p`
//! with `0 <= p <= PROB_SCALE` stands for the probability `p / PROB_SCALE`.

use vstd::prelude::*;

verus! {

/// Denominator of all fixed-point probabilities.
pub const PROB_SCALE: u64 = 1_000_000;

/// Relies on rand::random_range: one uniform draw from the thread-local
/// generator, always inside the half-open range it is given.
#[verifier::external_body]
fn random_draw() -> (r: u64)
    ensures
        r < PROB_SCALE,
{
    rand::random_range(0..PROB_SCALE)
}

/// Scaled probability that a cell with `n` burning neighbors stays alive:
/// `PROB_SCALE * ((PROB_SCALE - p) / PROB_SCALE)^n`, rounded down after each
/// factor.
pub open spec fn stay_scale(p: int, n: nat) -> int
    decreases n,
{
    if n == 0 {
        PROB_SCALE as int
    } else {
        stay_scale(p, (n - 1) as nat) * (PROB_SCALE - p) / (PROB_SCALE as int)
    }
}

/// `stay_scale` never leaves `[0, PROB_SCALE]` for a valid probability.
pub proof fn lemma_stay_scale_bounds(p: int, n: nat)
    requires
        0 <= p <= PROB_SCALE,
    ensures
        0 <= stay_scale(p, n) <= PROB_SCALE,
    decreases n,
{
    if n > 0 {
        lemma_stay_scale_bounds(p, (n - 1) as nat);
        let prev = stay_scale(p, (n - 1) as nat);
        let q = PROB_SCALE - p;
        assert(0 <= prev * q <= PROB_SCALE * PROB_SCALE) by (nonlinear_arith)
            requires
                0 <= prev <= PROB_SCALE,
                0 <= q <= PROB_SCALE,
        ;
        assert(0 <= prev * q / (PROB_SCALE as int) <= PROB_SCALE) by (nonlinear_arith)
            requires
                0 <= prev * q <= PROB_SCALE * PROB_SCALE,
        ;
    }
}

/// With spread probability zero, the stay-alive chance is always certainty.
pub proof fn lemma_stay_scale_zero(n: nat)
    ensures
        stay_scale(0, n) == PROB_SCALE,
    decreases n,
{
    if n > 0 {
        lemma_stay_scale_zero((n - 1) as nat);
        assert((PROB_SCALE as int) * (PROB_SCALE as int) / (PROB_SCALE as int)
            == PROB_SCALE as int) by (nonlinear_arith);
    }
}

/// With spread probability one and at least one burning neighbor, the
/// stay-alive chance is always zero.
pub proof fn lemma_stay_scale_one(n: nat)
    requires
        n >= 1,
    ensures
        stay_scale(PROB_SCALE as int, n) == 0,
{
    let prev = stay_scale(PROB_SCALE as int, (n - 1) as nat);
    assert(prev * 0 == 0) by (nonlinear_arith);
}

/// Whether a draw `draw` ignites a cell with `n` burning neighbors under
/// scaled spread probability `p`.
pub open spec fn sparks(n: nat, p: int, draw: int) -> bool {
    stay_scale(p, n) <= draw
}

/// Computes `stay_scale(p, n)` exactly.
fn pow_stay(p: u64, n: usize) -> (r: u64)
    requires
        p <= PROB_SCALE,
    ensures
        r == stay_scale(p as int, n as nat),
        r <= PROB_SCALE,
{
    let mut acc: u64 = PROB_SCALE;
    let mut i: usize = 0;
    while i < n
        invariant
            i <= n,
            p <= PROB_SCALE,
            acc == stay_scale(p as int, i as nat),
            acc <= PROB_SCALE,
        decreases n - i,
    {
        assert(acc * (PROB_SCALE - p) <= PROB_SCALE * PROB_SCALE) by (nonlinear_arith)
            requires
                acc <= PROB_SCALE,
                p <= PROB_SCALE,
        ;
        let next: u64 = acc * (PROB_SCALE - p) / PROB_SCALE;
        proof {
            lemma_stay_scale_bounds(p as int, (i + 1) as nat);
        }
        acc = next;
        i = i + 1;
    }
    proof {
        lemma_stay_scale_bounds(p as int, n as nat);
    }
    acc
}

/// The deterministic part of `spark`: decides from an already-made draw.
pub fn spark_with_draw(burning_neighbors: usize, prob_spread: u64, draw: u64) -> (r: bool)
    requires
        prob_spread <= PROB_SCALE,
        draw < PROB_SCALE,
    ensures
        r == sparks(burning_neighbors as nat, prob_spread as int, draw as int),
        burning_neighbors == 0 ==> !r,
        prob_spread == 0 ==> !r,
        burning_neighbors >= 1 && prob_spread == PROB_SCALE ==> r,
{
    proof {
        if prob_spread == 0 {
            lemma_stay_scale_zero(burning_neighbors as nat);
        }
        if burning_neighbors >= 1 && prob_spread == PROB_SCALE {
            lemma_stay_scale_one(burning_neighbors as nat);
        }
    }
    let stay = pow_stay(prob_spread, burning_neighbors);
    stay <= draw
}

/// Decide whether a cell with `burning_neighbors` burning neighbors catches
/// fire under the scaled spread probability `prob_spread`.
///
/// A cell with no burning neighbors never ignites; spread probability zero
/// never ignites; spread probability one always ignites a cell with at
/// least one burning neighbor.
pub fn spark(burning_neighbors: usize, prob_spread: u64) -> (r: bool)
    requires
        prob_spread <= PROB_SCALE,
    ensures
        burning_neighbors == 0 ==> !r,
        prob_spread == 0 ==> !r,
        burning_neighbors >= 1 && prob_spread == PROB_SCALE ==> r,
{
    let draw = random_draw();
    spark_with_draw(burning_neighbors, prob_spread, draw)
}

/// The deterministic part of `burn_out`: decides from an already-made draw.
pub fn burn_out_with_draw(prob_burn_out: u64, draw: u64) -> (r: bool)
    ensures
        r == (draw < prob_burn_out),
{
    draw < prob_burn_out
}

/// Decide whether a burning cell goes out under the scaled burn-out
/// probability `prob_burn_out`: never for zero, always for one.
pub fn burn_out(prob_burn_out: u64) -> (r: bool)
    requires
        prob_burn_out <= PROB_SCALE,
    ensures
        prob_burn_out == 0 ==> !r,
        prob_burn_out == PROB_SCALE ==> r,
{
    let draw = random_draw();
    burn_out_with_draw(prob_burn_out, draw)
}

} // verus!
