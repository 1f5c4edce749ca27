//! The few facts about products and quotients of real numbers on which the arithmetic of
//! fractions rests.

use vstd::prelude::*;

verus! {

/// A quotient times its divisor gives back the dividend.
pub proof fn lemma_quotient_times_divisor(n: real, d: real)
    by (nonlinear_arith)
    requires
        d != 0real,
    ensures
        (n / d) * d == n,
{
}

/// A real `v` with `v * d == n` is the quotient `n / d`.
pub proof fn lemma_quotient_is(n: real, d: real, v: real)
    by (nonlinear_arith)
    requires
        d != 0real,
        v * d == n,
    ensures
        n / d == v,
{
}

/// The sign of a factor moves out of a product.
pub proof fn lemma_product_negated(v: real, d: real)
    by (nonlinear_arith)
    ensures
        v * (-d) == -(v * d),
        (-v) * d == -(v * d),
{
}

/// A product with a factor that is not zero is zero exactly when the other factor is.
pub proof fn lemma_product_zero(v: real, d: real)
    by (nonlinear_arith)
    requires
        d != 0real,
    ensures
        (v == 0real) <==> (v * d == 0real),
{
}

/// Multiplying by a positive factor keeps the order.
pub proof fn lemma_product_order(v: real, k: real, d: real)
    by (nonlinear_arith)
    requires
        d > 0real,
    ensures
        (v < k) <==> (v * d < k * d),
        (v > k) <==> (v * d > k * d),
{
}

/// The difference of two numbers, scaled by the product of two factors, from each number
/// scaled by its own factor.
pub proof fn lemma_difference_scaled(a: real, b: real, d1: real, d2: real, n1: real, n2: real)
    by (nonlinear_arith)
    requires
        a * d1 == n1,
        b * d2 == n2,
    ensures
        (a - b) * (d1 * d2) == n1 * d2 - n2 * d1,
{
}

/// The sum of two numbers, scaled by the product of two factors, from each number scaled by
/// its own factor.
pub proof fn lemma_sum_scaled(a: real, b: real, d1: real, d2: real, n1: real, n2: real)
    by (nonlinear_arith)
    requires
        a * d1 == n1,
        b * d2 == n2,
    ensures
        (a + b) * (d1 * d2) == n1 * d2 + n2 * d1,
{
}

/// The product of two numbers, scaled by the product of two factors, from each number
/// scaled by its own factor.
pub proof fn lemma_product_scaled(a: real, b: real, d1: real, d2: real, n1: real, n2: real)
    by (nonlinear_arith)
    requires
        a * d1 == n1,
        b * d2 == n2,
    ensures
        (a * b) * (d1 * d2) == n1 * n2,
{
}

/// The quotient `v` of `a` by `b`, scaled, from `a` and `b` each scaled by its own factor.
pub proof fn lemma_quotient_scaled(
    v: real,
    a: real,
    b: real,
    d1: real,
    d2: real,
    n1: real,
    n2: real,
)
    by (nonlinear_arith)
    requires
        v * b == a,
        a * d1 == n1,
        b * d2 == n2,
    ensures
        v * (d1 * n2) == n1 * d2,
{
}

/// A number scaled by a product, from the number scaled by one factor.
pub proof fn lemma_rescaled(v: real, d: real, k: real, n: real)
    by (nonlinear_arith)
    requires
        v * d == n,
    ensures
        v * (d * k) == n * k,
{
}

/// Casting to the reals commutes with multiplication.
pub proof fn lemma_cast_mul(a: int, b: int)
    by (nonlinear_arith)
    ensures
        (a * b) as real == (a as real) * (b as real),
{
}

} // verus!
