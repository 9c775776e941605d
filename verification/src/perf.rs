//! Fixed-point performance scalars.
//!
//! A performance score counts units of `1 / PERF_SCALE`: the score written
//! `1.0` in prose is the integer `PERF_SCALE`.  Scores rank segments and
//! chains; they never enter the monetary totals, which stay exact integers.
//! Division truncates toward zero, so every score is a deterministic function
//! of the exact totals it was derived from.

use vstd::prelude::*;

verus! {

use core::cmp::Ordering;
use vstd::arithmetic::div_mod::{lemma_div_pos_is_pos, lemma_multiply_divide_le};
use vstd::arithmetic::mul::lemma_mul_is_commutative;

/// Scale of the fixed-point performance scores: one whole unit of
/// reward-per-gas corresponds to this many score quanta.
pub const PERF_SCALE: i128 = 1048576;

/// Tolerance of the approximate score comparison.  Two scores whose distance
/// is below this many quanta are ranked equal.  With the present value of one
/// quantum the comparison is exact; the constant is named so that the
/// tolerance is explicit and tunable.
pub const PERF_EPSILON: i128 = 1;

/// Largest admissible reward per unit of gas (in exact reward units).
pub const PREMIUM_MAX: i128 = 144115188075855872;

/// Largest admissible gas limit of a single message.
pub const MSG_GAS_LIMIT_MAX: i64 = 1099511627776;

/// Largest admissible total gas limit of one segment.
pub const SEG_GAS_LIMIT_MAX: i64 = 281474976710656;

/// Bound on the magnitude of every performance score.
pub const PERF_BOUND: i128 = PREMIUM_MAX * PERF_SCALE;

/// Division truncating toward zero, as the executable code computes it.
/// Meaningful for positive divisors.
pub open spec fn div_trunc(n: int, d: int) -> int {
    if n >= 0 {
        n / d
    } else {
        -((-n) / d)
    }
}

/// The performance score of a segment: its exact cumulative reward per unit
/// of gas, in score quanta.
pub open spec fn gas_perf_of(gas_reward: int, gas_limit: int) -> int {
    div_trunc(gas_reward * PERF_SCALE, gas_limit)
}

/// Truncating division keeps the sign of the dividend and never grows a
/// magnitude bound of the form `b * d`.
pub proof fn lemma_div_trunc_bound(n: int, d: int, b: int)
    requires
        d > 0,
        b >= 0,
        -(b * d) <= n <= b * d,
    ensures
        -b <= div_trunc(n, d) <= b,
        n >= 0 ==> div_trunc(n, d) >= 0,
        n < 0 ==> div_trunc(n, d) <= 0,
{
    lemma_mul_is_commutative(b, d);
    if n >= 0 {
        lemma_div_pos_is_pos(n, d);
        lemma_multiply_divide_le(n, d, b);
    } else {
        lemma_div_pos_is_pos(-n, d);
        lemma_multiply_divide_le(-n, d, b);
    }
}

/// Exact quotient, truncating toward zero.
pub fn div_perf(n: i128, d: i128) -> (q: i128)
    requires
        d > 0,
    ensures
        q == div_trunc(n as int, d as int),
        n >= 0 ==> 0 <= q <= n,
        n < 0 ==> n <= q <= 0,
{
    proof {
        if n >= 0 {
            assert(n <= d * n) by (nonlinear_arith)
                requires
                    n >= 0,
                    d >= 1,
            ;
            lemma_div_pos_is_pos(n as int, d as int);
            lemma_multiply_divide_le(n as int, d as int, n as int);
        } else {
            assert(-n <= d * (-n)) by (nonlinear_arith)
                requires
                    n < 0,
                    d >= 1,
            ;
            lemma_div_pos_is_pos(-(n as int), d as int);
            lemma_multiply_divide_le(-(n as int), d as int, -(n as int));
        }
    }
    n.checked_div(d).unwrap()
}

/// The performance score of a segment, computed from its exact totals.
/// Stands in for the scalar scoring collaborator, whose ratio of reward to
/// gas limit is here quantised to `PERF_SCALE`ths.
pub fn get_gas_perf(gas_reward: i128, gas_limit: i64) -> (perf: i128)
    requires
        0 < gas_limit <= SEG_GAS_LIMIT_MAX,
        -(PREMIUM_MAX * gas_limit) <= gas_reward <= PREMIUM_MAX * gas_limit,
    ensures
        perf == gas_perf_of(gas_reward as int, gas_limit as int),
        -PERF_BOUND <= perf <= PERF_BOUND,
        gas_reward >= 0 ==> perf >= 0,
        gas_reward < 0 ==> perf <= 0,
{
    proof {
        assert(-(PREMIUM_MAX * SEG_GAS_LIMIT_MAX) <= gas_reward <= PREMIUM_MAX
            * SEG_GAS_LIMIT_MAX) by (nonlinear_arith)
            requires
                0 < gas_limit <= SEG_GAS_LIMIT_MAX,
                -(PREMIUM_MAX * gas_limit) <= gas_reward <= PREMIUM_MAX * gas_limit,
        ;
    }
    let num: i128 = gas_reward * PERF_SCALE;
    proof {
        assert(-(PERF_BOUND * gas_limit) <= num <= PERF_BOUND * gas_limit) by (nonlinear_arith)
            requires
                num == gas_reward * PERF_SCALE,
                0 < gas_limit,
                -(PREMIUM_MAX * gas_limit) <= gas_reward <= PREMIUM_MAX * gas_limit,
                PERF_SCALE > 0,
                PERF_BOUND == PREMIUM_MAX * PERF_SCALE,
        ;
        lemma_div_trunc_bound(num as int, gas_limit as int, PERF_BOUND as int);
    }
    div_perf(num, gas_limit as i128)
}

/// Approximate comparison of two scores: equal when they are within
/// `PERF_EPSILON` quanta of one another, otherwise ordered naturally.
pub open spec fn approx_cmp_spec(a: int, b: int) -> Ordering {
    if -PERF_EPSILON < a - b < PERF_EPSILON {
        Ordering::Equal
    } else if a < b {
        Ordering::Less
    } else {
        Ordering::Greater
    }
}

/// Approximate comparison of two scores.
pub fn approx_cmp(a: i128, b: i128) -> (r: Ordering)
    requires
        -(4 * PERF_BOUND) <= a <= 4 * PERF_BOUND,
        -(4 * PERF_BOUND) <= b <= 4 * PERF_BOUND,
    ensures
        r == approx_cmp_spec(a as int, b as int),
{
    if a < b {
        if b - a < PERF_EPSILON {
            Ordering::Equal
        } else {
            Ordering::Less
        }
    } else {
        if a - b < PERF_EPSILON {
            Ordering::Equal
        } else {
            Ordering::Greater
        }
    }
}

} // verus!
