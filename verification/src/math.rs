use vstd::prelude::*;
use vstd::arithmetic::div_mod::{lemma_fundamental_div_mod, lemma_mod_bound};

verus! {

/// `a / b` as Rust computes it on integers: the quotient rounded toward zero.
pub open spec fn trunc_div(a: int, b: int) -> int {
    if a >= 0 && b > 0 {
        a / b
    } else if a < 0 && b < 0 {
        (-a) / (-b)
    } else if a < 0 {
        -((-a) / b)
    } else {
        -(a / (-b))
    }
}

/// `a * b`, held within the range of `i128`.
pub open spec fn saturating_product(a: int, b: int) -> int {
    if a * b > i128::MAX {
        i128::MAX as int
    } else if a * b < i128::MIN {
        i128::MIN as int
    } else {
        a * b
    }
}

/// Multiplies, clamping the result to the bounds of `i128`.
pub fn saturating_mul(a: i128, b: i128) -> (r: i128)
    ensures
        r == saturating_product(a as int, b as int),
{
    match a.checked_mul(b) {
        Some(p) => p,
        None => {
            if (a < 0) == (b < 0) {
                proof {
                    lemma_same_sign_product(a as int, b as int);
                }
                i128::MAX
            } else {
                proof {
                    lemma_opposite_sign_product(a as int, b as int);
                }
                i128::MIN
            }
        },
    }
}

proof fn lemma_same_sign_product(a: int, b: int)
    requires
        (a < 0) == (b < 0),
    ensures
        a * b >= 0,
{
    assert(a * b >= 0) by (nonlinear_arith)
        requires
            (a < 0) == (b < 0),
    ;
}

proof fn lemma_opposite_sign_product(a: int, b: int)
    requires
        (a < 0) != (b < 0),
    ensures
        a * b <= 0,
{
    assert(a * b <= 0) by (nonlinear_arith)
        requires
            (a < 0) != (b < 0),
    ;
}

/// Divides rounding toward zero, as Rust's `/` does; `None` where the
/// quotient does not fit (`i128::MIN / -1`) or the divisor is zero.
pub fn checked_trunc_div(a: i128, b: i128) -> (r: Option<i128>)
    ensures
        match r {
            Some(q) => b != 0 && q == trunc_div(a as int, b as int),
            None => b == 0 || trunc_div(a as int, b as int) > i128::MAX,
        },
{
    a.checked_div(b)
}

/// Division rounding down, of a non-negative number by a positive one.
pub fn floor_div(a: i128, d: i128) -> (q: i128)
    requires
        a >= 0,
        d > 0,
    ensures
        q == a / d,
{
    proof {
        lemma_floor_div(a as int, d as int);
    }
    match a.checked_div(d) {
        Some(q) => q,
        None => 0,
    }
}

/// The quotient rounded down lies within one divisor of the dividend.
pub proof fn lemma_floor_div(a: int, d: int)
    requires
        d > 0,
    ensures
        (a / d) * d <= a < (a / d) * d + d,
        a >= 0 ==> a / d >= 0,
        a >= 0 ==> a / d <= a,
{
    lemma_fundamental_div_mod(a, d);
    lemma_mod_bound(a, d);
    assert((a / d) * d == d * (a / d)) by (nonlinear_arith);
    if a >= 0 {
        if a / d < 0 {
            assert((a / d) * d + d <= 0) by (nonlinear_arith)
                requires
                    a / d < 0,
                    d > 0,
            ;
        }
        if a / d > a {
            assert((a / d) * d >= a / d) by (nonlinear_arith)
                requires
                    a / d > 0,
                    d > 0,
            ;
        }
    }
}

/// A number whose multiple by `d` fits under `a` is at most `a / d`.
pub proof fn lemma_quotient_upper(q: int, a: int, d: int)
    requires
        d > 0,
        q * d <= a,
    ensures
        q <= a / d,
{
    lemma_floor_div(a, d);
    if q > a / d {
        assert(q * d >= (a / d) * d + d) by (nonlinear_arith)
            requires
                q >= a / d + 1,
                d > 0,
        ;
    }
}

/// Exact division: `(q * d) / d == q`.
pub proof fn lemma_div_of_multiple(q: int, d: int)
    requires
        d > 0,
    ensures
        (q * d) / d == q,
{
    lemma_floor_div(q * d, d);
    lemma_quotient_upper(q, q * d, d);
    if (q * d) / d > q {
        assert(((q * d) / d) * d >= q * d + d) by (nonlinear_arith)
            requires
                (q * d) / d >= q + 1,
                d > 0,
        ;
    }
}

/// Scaling a dividend by `k` scales its quotient by `k`, up to the `k - 1`
/// that the rounding of the smaller quotient lost.
pub proof fn lemma_floor_scaling(x: int, k: int, d: int)
    requires
        x >= 0,
        k >= 1,
        d > 0,
    ensures
        k * (x / d) <= (k * x) / d <= k * (x / d) + k - 1,
{
    let q = x / d;
    lemma_floor_div(x, d);
    lemma_floor_div(k * x, d);
    assert((k * q) * d <= k * x) by (nonlinear_arith)
        requires
            q * d <= x,
            k >= 1,
    ;
    lemma_quotient_upper(k * q, k * x, d);
    let p = (k * x) / d;
    if p >= k * q + k {
        assert(p * d >= (k * q + k) * d) by (nonlinear_arith)
            requires
                p >= k * q + k,
                d > 0,
        ;
        assert((k * q + k) * d > k * x) by (nonlinear_arith)
            requires
                x < q * d + d,
                k >= 1,
        ;
    }
}

} // verus!
