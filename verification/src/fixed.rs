//! Signed fixed-point arithmetic with a scale of one million, and the
//! logistic sigmoid used as the network's squashing nonlinearity.
//!
//! The sigmoid is computed entirely in integers: the argument is clamped to
//! the range where the result is representable at this scale, `exp(-x)` is
//! evaluated by range reduction over powers of two and a degree-seven
//! alternating Taylor series, and the final quotient folds it into
//! `1 / (1 + exp(-x))`.

use vstd::prelude::*;

verus! {

/// The fixed-point scale: this value stands for 1.0.
pub const FP_ONE: i64 = 1_000_000;

/// `FP_ONE * FP_ONE`, the scale of a product of two fixed-point values.
pub const FP_ONE_SQ: i64 = 1_000_000_000_000;

/// One half at the fixed-point scale.
pub const FP_HALF: i64 = 500_000;

/// The natural logarithm of two at the fixed-point scale.
pub const LN2_FP: i64 = 693_147;

/// Beyond this argument magnitude the sigmoid saturates to 0 or `FP_ONE`
/// at this scale, so larger arguments are clamped.
pub const SIG_CLAMP: i64 = 14_000_000;

/// Horner evaluation of the alternating Taylor series of `exp(-r)`,
/// from term `j` upward: `a(8) = 1` and `a(j) = 1 - (r/j)*a(j+1)`,
/// all at the fixed-point scale, so that `a(1)` approximates `exp(-r)`.
pub open spec fn spec_taylor(r: int, j: int) -> int
    decreases 8 - j,
{
    if j >= 8 {
        FP_ONE as int
    } else {
        FP_ONE - r * spec_taylor(r, j + 1) / (j * (FP_ONE as int))
    }
}

/// `e` halved `k` times with integer floor at each step.
pub open spec fn spec_halve(e: int, k: int) -> int
    decreases k,
{
    if k <= 0 {
        e
    } else {
        spec_halve(e, k - 1) / 2
    }
}

/// Fixed-point `exp(-x)` for `0 <= x < SIG_CLAMP`: range reduction by
/// `x = k*ln(2) + r`, then the Taylor series on `r` shifted down `k` times.
pub open spec fn spec_exp_neg(x: int) -> int {
    spec_halve(spec_taylor(x % (LN2_FP as int), 1), x / (LN2_FP as int))
}

/// Fixed-point logistic sigmoid `1 / (1 + exp(-x))`, clamped to 0 and
/// `FP_ONE` outside `(-SIG_CLAMP, SIG_CLAMP)`.
pub open spec fn spec_sigmoid(x: int) -> int {
    if x >= SIG_CLAMP {
        FP_ONE as int
    } else if x <= -(SIG_CLAMP as int) {
        0
    } else if x >= 0 {
        (FP_ONE_SQ as int) / (FP_ONE + spec_exp_neg(x))
    } else {
        FP_ONE - (FP_ONE_SQ as int) / (FP_ONE + spec_exp_neg(-x))
    }
}

proof fn lemma_taylor_bounds(r: int, j: int)
    requires
        0 <= r <= LN2_FP,
        1 <= j <= 8,
    ensures
        0 <= spec_taylor(r, j) <= FP_ONE,
    decreases 8 - j,
{
    if j < 8 {
        lemma_taylor_bounds(r, j + 1);
        let a = spec_taylor(r, j + 1);
        assert(r * a <= LN2_FP * (FP_ONE as int)) by (nonlinear_arith)
            requires
                0 <= r <= LN2_FP,
                0 <= a <= FP_ONE,
        ;
        assert(r * a >= 0) by (nonlinear_arith)
            requires
                0 <= r,
                0 <= a,
        ;
        assert(0 <= r * a / (j * (FP_ONE as int)) <= FP_ONE) by (nonlinear_arith)
            requires
                0 <= r * a <= LN2_FP * (FP_ONE as int),
                1 <= j,
        ;
    }
}

proof fn lemma_halve_bounds(e: int, k: int)
    requires
        0 <= e <= FP_ONE,
        0 <= k,
    ensures
        0 <= spec_halve(e, k) <= FP_ONE,
    decreases k,
{
    if k > 0 {
        lemma_halve_bounds(e, k - 1);
    }
}

fn taylor_exp_neg(r: i64) -> (e: i64)
    requires
        0 <= r <= LN2_FP,
    ensures
        e == spec_taylor(r as int, 1),
        0 <= e <= FP_ONE,
{
    let mut acc: i64 = FP_ONE;
    let mut j: i64 = 7;
    while j >= 1
        invariant
            0 <= j <= 7,
            0 <= r <= LN2_FP,
            acc == spec_taylor(r as int, j + 1),
            0 <= acc <= FP_ONE,
        decreases j,
    {
        proof {
            assert(r * acc <= LN2_FP * (FP_ONE as int)) by (nonlinear_arith)
                requires
                    0 <= r <= LN2_FP,
                    0 <= acc <= FP_ONE,
            ;
            assert(r * acc >= 0) by (nonlinear_arith)
                requires
                    0 <= r,
                    0 <= acc,
            ;
            assert(0 <= (r as int) * (acc as int) / ((j as int) * (FP_ONE as int)) <= FP_ONE)
                by (nonlinear_arith)
                requires
                    0 <= (r as int) * (acc as int) <= LN2_FP * (FP_ONE as int),
                    1 <= j,
            ;
        }
        acc = FP_ONE - (r * acc) / (j * FP_ONE);
        j = j - 1;
    }
    acc
}

fn exp_neg_fp(x: i64) -> (e: i64)
    requires
        0 <= x < SIG_CLAMP,
    ensures
        e == spec_exp_neg(x as int),
        0 <= e <= FP_ONE,
{
    let k = x / LN2_FP;
    let r = x % LN2_FP;
    let mut e = taylor_exp_neg(r);
    let ghost e0 = e as int;
    let mut i: i64 = 0;
    while i < k
        invariant
            0 <= i <= k,
            k == x as int / (LN2_FP as int),
            e == spec_halve(e0, i as int),
            0 <= e <= FP_ONE,
            0 <= e0 <= FP_ONE,
        decreases k - i,
    {
        proof {
            lemma_halve_bounds(e0, i + 1);
        }
        e = e / 2;
        i = i + 1;
    }
    e
}

proof fn lemma_quotient_bounds(d: int)
    requires
        FP_ONE <= d <= 2 * FP_ONE,
    ensures
        FP_HALF <= (FP_ONE_SQ as int) / d <= FP_ONE,
{
    assert(FP_HALF <= (FP_ONE_SQ as int) / d <= FP_ONE) by (nonlinear_arith)
        requires
            1_000_000 <= d <= 2_000_000,
    ;
}

/// The sigmoid is symmetric about one half: `sigmoid(x) + sigmoid(-x)`
/// is exactly one at the fixed-point scale, for every argument.
pub proof fn lemma_sigmoid_symmetry(x: int)
    ensures
        spec_sigmoid(x) + spec_sigmoid(-x) == FP_ONE,
{
    if x == 0 {
        reveal_with_fuel(spec_taylor, 9);
        assert(spec_taylor(0, 1) == FP_ONE);
        assert(spec_exp_neg(0) == FP_ONE);
        assert((FP_ONE_SQ as int) / (FP_ONE + FP_ONE as int) == FP_HALF);
    }
}

/// The logistic sigmoid at the fixed-point scale; the executable twin of
/// [`spec_sigmoid`]. The result always lies in `[0, FP_ONE]`.
pub fn sigmoid_fp(x: i64) -> (s: i64)
    ensures
        s == spec_sigmoid(x as int),
        0 <= s <= FP_ONE,
{
    if x >= SIG_CLAMP {
        FP_ONE
    } else if x <= -SIG_CLAMP {
        0
    } else if x >= 0 {
        let e = exp_neg_fp(x);
        proof {
            lemma_quotient_bounds(FP_ONE + e);
        }
        FP_ONE_SQ / (FP_ONE + e)
    } else {
        let e = exp_neg_fp(-x);
        proof {
            lemma_quotient_bounds(FP_ONE + e);
        }
        FP_ONE - FP_ONE_SQ / (FP_ONE + e)
    }
}

} // verus!
