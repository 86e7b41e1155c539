use vstd::prelude::*;

verus! {

/// Cap on a single sampling weight.  Powers of pheromone and heuristic values
/// saturate here, so that a sum over every cell of the grid still fits the
/// machine integers.
pub const WEIGHT_CAP: u128 = 0xffff_ffff_ffff_ffff;

/// `base^exp`, saturated at `WEIGHT_CAP` after every multiplication step.
pub open spec fn pow_capped(base: int, exp: nat) -> int
    decreases exp,
{
    if exp == 0 {
        1
    } else {
        let rest = pow_capped(base, (exp - 1) as nat);
        if rest * base > WEIGHT_CAP { WEIGHT_CAP as int } else { rest * base }
    }
}

/// The sampling weight of one cell: `tau^alpha * heuristic^beta`, each factor
/// and the product saturated at `WEIGHT_CAP`.
pub open spec fn weight_of(tau: int, heur: int, alpha: nat, beta: nat) -> int {
    let p = pow_capped(tau, alpha) * pow_capped(heur, beta);
    if p > WEIGHT_CAP {
        WEIGHT_CAP as int
    } else {
        p
    }
}

/// Sum of the first `n` weights.
pub open spec fn sum_weights(s: Seq<u128>, n: int) -> int
    decreases n,
{
    if n <= 0 {
        0
    } else {
        sum_weights(s, n - 1) + s[n - 1]
    }
}

pub proof fn lemma_pow_capped_bounds(base: int, exp: nat)
    requires
        base >= 0,
    ensures
        0 <= pow_capped(base, exp) <= WEIGHT_CAP,
    decreases exp,
{
    if exp > 0 {
        lemma_pow_capped_bounds(base, (exp - 1) as nat);
    }
}

pub proof fn lemma_sum_weights_bounds(s: Seq<u128>, n: int)
    requires
        0 <= n <= s.len(),
        forall|i: int| 0 <= i < s.len() ==> s[i] <= WEIGHT_CAP,
    ensures
        0 <= sum_weights(s, n) <= n * (WEIGHT_CAP as int),
    decreases n,
{
    if n > 0 {
        lemma_sum_weights_bounds(s, n - 1);
        assert((n - 1) * (WEIGHT_CAP as int) + WEIGHT_CAP as int == n * (WEIGHT_CAP as int))
            by (nonlinear_arith);
    }
}

/// `base^exp`, saturated at `WEIGHT_CAP`.
pub fn pow_capped_exec(base: u64, exp: u32) -> (r: u128)
    ensures
        r as int == pow_capped(base as int, exp as nat),
        r <= WEIGHT_CAP,
{
    proof {
        lemma_pow_capped_bounds(base as int, exp as nat);
    }
    let mut acc: u128 = 1;
    let mut i: u32 = 0;
    while i < exp
        invariant
            i <= exp,
            acc as int == pow_capped(base as int, i as nat),
            acc <= WEIGHT_CAP,
        decreases exp - i,
    {
        proof {
            lemma_pow_capped_bounds(base as int, (i + 1) as nat);
        }
        proof {
            assert(acc as int * (base as int) <= WEIGHT_CAP as int * WEIGHT_CAP as int)
                by (nonlinear_arith)
                requires
                    0 <= acc as int <= WEIGHT_CAP as int,
                    0 <= base as int <= WEIGHT_CAP as int,
            ;
        }
        let step: u128 = acc * (base as u128);
        acc = if step > WEIGHT_CAP {
            WEIGHT_CAP
        } else {
            step
        };
        i += 1;
    }
    acc
}

/// The sampling weight of one cell, in executable form.
pub fn weight_exec(tau: u64, heur: u64, alpha: u32, beta: u32) -> (r: u128)
    ensures
        r as int == weight_of(tau as int, heur as int, alpha as nat, beta as nat),
        r <= WEIGHT_CAP,
{
    let a = pow_capped_exec(tau, alpha);
    let b = pow_capped_exec(heur, beta);
    proof {
        assert(a as int * (b as int) <= WEIGHT_CAP as int * WEIGHT_CAP as int) by (nonlinear_arith)
            requires
                0 <= a as int <= WEIGHT_CAP as int,
                0 <= b as int <= WEIGHT_CAP as int,
        ;
    }
    let p = a * b;
    if p > WEIGHT_CAP {
        WEIGHT_CAP
    } else {
        p
    }
}

/// Total of a weight vector.  The length bound keeps the sum inside `u128`.
pub fn total_weight(weights: &Vec<u128>) -> (r: u128)
    requires
        weights@.len() <= 0x1_0000_0000,
        forall|i: int| 0 <= i < weights@.len() ==> weights@[i] <= WEIGHT_CAP,
    ensures
        r as int == sum_weights(weights@, weights@.len() as int),
{
    let mut total: u128 = 0;
    let mut i: usize = 0;
    while i < weights.len()
        invariant
            i <= weights@.len(),
            weights@.len() <= 0x1_0000_0000,
            forall|j: int| 0 <= j < weights@.len() ==> weights@[j] <= WEIGHT_CAP,
            total as int == sum_weights(weights@, i as int),
            total as int <= (i as int) * (WEIGHT_CAP as int),
        decreases weights@.len() - i,
    {
        proof {
            assert((i as int) * (WEIGHT_CAP as int) + WEIGHT_CAP as int == (i + 1) as int * (
            WEIGHT_CAP as int)) by (nonlinear_arith);
            assert((i + 1) as int * (WEIGHT_CAP as int) <= 0x1_0000_0000 * (WEIGHT_CAP as int)) by (
            nonlinear_arith)
                requires
                    (i + 1) as int <= 0x1_0000_0000,
            ;
        }
        total = total + weights[i];
        i += 1;
    }
    total
}

/// Pick the first index whose cumulative weight exceeds the draw `u`.
///
/// The result `r` is characterized by `sum(w, r) <= u < sum(w, r + 1)`: the
/// draw falls inside the `r`-th weight's slice of the cumulative line, so a
/// cell is chosen with frequency proportional to its weight, and the chosen
/// cell always has a strictly positive weight.
pub fn select_by_cumulative(weights: &Vec<u128>, u: u128) -> (r: usize)
    requires
        weights@.len() <= 0x1_0000_0000,
        forall|i: int| 0 <= i < weights@.len() ==> weights@[i] <= WEIGHT_CAP,
        u < sum_weights(weights@, weights@.len() as int),
    ensures
        r < weights@.len(),
        sum_weights(weights@, r as int) <= u < sum_weights(weights@, r as int + 1),
        weights@[r as int] > 0,
{
    let mut i: usize = 0;
    let mut cum: u128 = 0;
    proof {
        lemma_sum_weights_bounds(weights@, weights@.len() as int);
    }
    loop
        invariant
            i < weights@.len(),
            weights@.len() <= 0x1_0000_0000,
            forall|j: int| 0 <= j < weights@.len() ==> weights@[j] <= WEIGHT_CAP,
            u < sum_weights(weights@, weights@.len() as int),
            cum as int == sum_weights(weights@, i as int),
            cum <= u,
        decreases weights@.len() - i,
    {
        proof {
            lemma_sum_weights_bounds(weights@, i as int + 1);
            assert((i as int + 1) * (WEIGHT_CAP as int) <= 0x1_0000_0001 * (WEIGHT_CAP as int)) by (
            nonlinear_arith)
                requires
                    i as int + 1 <= 0x1_0000_0001,
            ;
        }
        let next: u128 = cum + weights[i];
        if u < next {
            return i;
        }
        proof {
            lemma_sum_remainder_positive(weights@, i as int + 1, u as int);
        }
        cum = next;
        i += 1;
    }
}

/// If the draw is not yet covered at prefix `n`, some later weight is
/// positive, so the scan cannot run off the end.
proof fn lemma_sum_remainder_positive(s: Seq<u128>, n: int, u: int)
    requires
        0 <= n <= s.len(),
        sum_weights(s, n) <= u,
        u < sum_weights(s, s.len() as int),
    ensures
        n < s.len(),
{
}

/// With every weight equal to one, the cumulative line is the identity:
/// slot `r` covers exactly the draw `r`.  So with zero exponents (where every
/// weight is one) the probabilistic move degenerates to a uniform choice.
pub proof fn lemma_sum_weights_all_one(s: Seq<u128>, n: int)
    requires
        0 <= n <= s.len(),
        forall|i: int| 0 <= i < s.len() ==> s[i] == 1,
    ensures
        sum_weights(s, n) == n,
    decreases n,
{
    if n > 0 {
        lemma_sum_weights_all_one(s, n - 1);
    }
}

/// Zero exponents collapse every sampling weight to one, whatever the
/// pheromone and heuristic values are.
pub proof fn lemma_weight_zero_exponents(tau: int, heur: int)
    ensures
        weight_of(tau, heur, 0, 0) == 1,
{
}

/// The uniformity law: with all weights one, the selected index is the draw
/// itself, so the choice is uniform over the candidate cells.
pub proof fn lemma_select_uniform(s: Seq<u128>, u: int, r: int)
    requires
        forall|i: int| 0 <= i < s.len() ==> s[i] == 1,
        0 <= r < s.len(),
        sum_weights(s, r) <= u < sum_weights(s, r + 1),
    ensures
        r == u,
{
    lemma_sum_weights_all_one(s, r);
    lemma_sum_weights_all_one(s, r + 1);
}

} // verus!
