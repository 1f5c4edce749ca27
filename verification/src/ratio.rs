//! Exact rational numbers on machine integers, and the facts that tie them to the reals.

use crate::reals::{
    lemma_cast_mul, lemma_difference_scaled, lemma_product_negated, lemma_product_order,
    lemma_product_scaled, lemma_product_zero, lemma_quotient_is, lemma_quotient_scaled,
    lemma_quotient_times_divisor, lemma_rescaled, lemma_sum_scaled,
};
use vstd::prelude::*;

verus! {

/// The rational number `num / den`, kept exactly. The fraction need not be in lowest terms.
#[derive(Clone, Copy, Debug)]
pub struct Ratio {
    pub num: i128,
    pub den: i128,
}

impl View for Ratio {
    type V = real;

    /// The number that the fraction stands for.
    open spec fn view(&self) -> real {
        frac(self.num as int, self.den as int)
    }
}

impl Ratio {
    /// A fraction is well formed when its denominator is positive.
    pub open spec fn wf(&self) -> bool {
        self.den > 0
    }

    /// Well formed, with numerator and denominator of magnitude at most `limit`.
    pub open spec fn within(&self, limit: int) -> bool {
        -limit <= self.num <= limit && 0 < self.den <= limit
    }

    /// The fraction `num / den` with the sign moved into the numerator, or `None` where it
    /// cannot be held: `den` is zero, or one of the two is the least `i128`.
    pub fn new(num: i128, den: i128) -> (r: Option<Ratio>)
        ensures
            r is Some <==> den != 0 && num > i128::MIN && den > i128::MIN,
            r matches Some(q) ==> q.wf() && q@ == frac(num as int, den as int) && q.num == (if den
                > 0 {
                num as int
            } else {
                -num
            }) && q.den == (if den > 0 {
                den as int
            } else {
                -den
            }),
    {
        if den == 0 || num == i128::MIN || den == i128::MIN {
            None
        } else if den > 0 {
            Some(Ratio { num, den })
        } else {
            proof {
                lemma_negate_both(num as int, den as int);
            }
            Some(Ratio { num: -num, den: -den })
        }
    }

    /// The whole number `n` as a fraction over one.
    pub fn from_int(n: i64) -> (r: Ratio)
        ensures
            r.num == n,
            r.den == 1,
            r@ == (n as real),
    {
        proof {
            lemma_value_is(n as int, 1, n as real);
        }
        Ratio { num: n as i128, den: 1 }
    }

    /// Whether the fraction is well formed, with numerator and denominator of magnitude at
    /// most `limit`.
    pub fn is_within(&self, limit: i128) -> (ok: bool)
        ensures
            ok == self.within(limit as int),
    {
        limit >= 0 && -limit <= self.num && self.num <= limit && 0 < self.den && self.den
            <= limit
    }

    /// Whether the number is zero.
    pub fn is_zero(&self) -> (z: bool)
        requires
            self.wf(),
        ensures
            z <==> self@ == 0real,
            z <==> self.num == 0,
    {
        proof {
            lemma_frac_zero(self.num as int, self.den as int);
        }
        self.num == 0
    }

    /// The number rounded toward zero to a whole number; [`lemma_truncation`] says so over
    /// the reals.
    pub open spec fn truncate_spec(&self) -> int {
        truncation(self.num as int, self.den as int)
    }

    /// The number rounded toward zero to a whole number.
    pub fn truncate(&self) -> (t: i128)
        requires
            self.wf(),
        ensures
            t == self.truncate_spec(),
            self.num >= 0 ==> 0 <= t <= self.num,
            self.num <= 0 ==> self.num <= t <= 0,
    {
        proof {
            lemma_truncation(self.num as int, self.den as int);
        }
        self.num / self.den
    }
}

/// `num / den` rounded toward zero, for a positive `den`.
pub open spec fn truncation(num: int, den: int) -> int {
    if num >= 0 {
        num / den
    } else {
        -((-num) / den)
    }
}

/// `t` is `v` rounded toward zero to a whole number.
pub open spec fn is_truncation(t: int, v: real) -> bool {
    if v >= 0real {
        0 <= t && (t as real) <= v && v < ((t + 1) as real)
    } else {
        t <= 0 && ((t - 1) as real) < v && v <= (t as real)
    }
}

/// Whole-number division rounds the fraction toward zero, and does not grow the numerator.
pub proof fn lemma_truncation(num: int, den: int)
    requires
        den > 0,
    ensures
        is_truncation(truncation(num, den), frac(num, den)),
        num >= 0 ==> 0 <= truncation(num, den) <= num,
        num <= 0 ==> num <= truncation(num, den) <= 0,
{
    let t = truncation(num, den);
    if num >= 0 {
        assert(0 <= t <= num && t * den <= num && num < (t + 1) * den) by (nonlinear_arith)
            requires
                t == num / den,
                num >= 0,
                den > 0,
        ;
        lemma_frac_order(num, den, t);
        lemma_frac_order(num, den, t + 1);
        lemma_frac_order(num, den, 0);
    } else {
        let q = (-num) / den;
        assert(0 <= q <= -num && q * den <= -num && -num < (q + 1) * den) by (nonlinear_arith)
            requires
                q == (-num) / den,
                num < 0,
                den > 0,
        ;
        assert(t == -q);
        assert((t - 1) * den < num && num <= t * den) by (nonlinear_arith)
            requires
                t == -q,
                q * den <= -num,
                -num < (q + 1) * den,
        ;
        lemma_frac_order(num, den, t);
        lemma_frac_order(num, den, t - 1);
        lemma_frac_order(num, den, 0);
    }
}

/// The quotient of two whole numbers, as a real number.
pub open spec fn frac(num: int, den: int) -> real {
    (num as real) / (den as real)
}

/// A fraction times its denominator gives back the numerator.
pub proof fn lemma_value_times_den(num: int, den: int)
    requires
        den != 0,
    ensures
        frac(num, den) * (den as real) == (num as real),
{
    lemma_quotient_times_divisor(num as real, den as real);
}

/// A real `v` with `v * den == num` is the fraction `num / den`.
pub proof fn lemma_value_is(num: int, den: int, v: real)
    requires
        den != 0,
        v * (den as real) == (num as real),
    ensures
        frac(num, den) == v,
{
    lemma_quotient_is(num as real, den as real, v);
}

/// Negating numerator and denominator leaves the fraction unchanged.
pub proof fn lemma_negate_both(num: int, den: int)
    requires
        den != 0,
    ensures
        frac(-num, -den) == frac(num, den),
{
    let v = frac(num, den);
    lemma_value_times_den(num, den);
    lemma_product_negated(v, den as real);
    lemma_value_is(-num, -den, v);
}

/// The opposite of a fraction has the opposite numerator.
pub proof fn lemma_frac_neg(num: int, den: int)
    requires
        den != 0,
    ensures
        -frac(num, den) == frac(-num, den),
{
    let v = frac(num, den);
    lemma_value_times_den(num, den);
    lemma_product_negated(v, den as real);
    lemma_value_is(-num, den, -v);
}

/// The product of two whole numbers that are not zero is not zero.
pub proof fn lemma_nonzero_product(a: int, b: int)
    by (nonlinear_arith)
    requires
        a != 0,
        b != 0,
    ensures
        a * b != 0,
{
}

/// The difference of two fractions, over the product of their denominators.
pub proof fn lemma_frac_sub(n1: int, d1: int, n2: int, d2: int)
    requires
        d1 != 0,
        d2 != 0,
    ensures
        d1 * d2 != 0,
        frac(n1, d1) - frac(n2, d2) == frac(n1 * d2 - n2 * d1, d1 * d2),
{
    let a = frac(n1, d1);
    let b = frac(n2, d2);
    lemma_value_times_den(n1, d1);
    lemma_value_times_den(n2, d2);
    lemma_cast_mul(n1, d2);
    lemma_cast_mul(n2, d1);
    lemma_cast_mul(d1, d2);
    lemma_nonzero_product(d1, d2);
    lemma_difference_scaled(a, b, d1 as real, d2 as real, n1 as real, n2 as real);
    lemma_value_is(n1 * d2 - n2 * d1, d1 * d2, a - b);
}

/// The sum of two fractions, over the product of their denominators.
pub proof fn lemma_frac_add(n1: int, d1: int, n2: int, d2: int)
    requires
        d1 != 0,
        d2 != 0,
    ensures
        d1 * d2 != 0,
        frac(n1, d1) + frac(n2, d2) == frac(n1 * d2 + n2 * d1, d1 * d2),
{
    let a = frac(n1, d1);
    let b = frac(n2, d2);
    lemma_value_times_den(n1, d1);
    lemma_value_times_den(n2, d2);
    lemma_cast_mul(n1, d2);
    lemma_cast_mul(n2, d1);
    lemma_cast_mul(d1, d2);
    lemma_nonzero_product(d1, d2);
    lemma_sum_scaled(a, b, d1 as real, d2 as real, n1 as real, n2 as real);
    lemma_value_is(n1 * d2 + n2 * d1, d1 * d2, a + b);
}

/// The product of two fractions.
pub proof fn lemma_frac_mul(n1: int, d1: int, n2: int, d2: int)
    requires
        d1 != 0,
        d2 != 0,
    ensures
        d1 * d2 != 0,
        frac(n1, d1) * frac(n2, d2) == frac(n1 * n2, d1 * d2),
{
    let a = frac(n1, d1);
    let b = frac(n2, d2);
    lemma_value_times_den(n1, d1);
    lemma_value_times_den(n2, d2);
    lemma_cast_mul(n1, n2);
    lemma_cast_mul(d1, d2);
    lemma_nonzero_product(d1, d2);
    lemma_product_scaled(a, b, d1 as real, d2 as real, n1 as real, n2 as real);
    lemma_value_is(n1 * n2, d1 * d2, a * b);
}

/// A fraction is zero exactly when its numerator is.
pub proof fn lemma_frac_zero(num: int, den: int)
    requires
        den != 0,
    ensures
        (frac(num, den) == 0real) <==> (num == 0),
{
    lemma_value_times_den(num, den);
    lemma_product_zero(frac(num, den), den as real);
}

/// The quotient of two fractions, the second of which is not zero.
pub proof fn lemma_frac_div(n1: int, d1: int, n2: int, d2: int)
    requires
        d1 != 0,
        d2 != 0,
        n2 != 0,
    ensures
        d1 * n2 != 0,
        frac(n2, d2) != 0real,
        frac(n1, d1) / frac(n2, d2) == frac(n1 * d2, d1 * n2),
{
    let a = frac(n1, d1);
    let b = frac(n2, d2);
    lemma_value_times_den(n1, d1);
    lemma_value_times_den(n2, d2);
    lemma_cast_mul(n1, d2);
    lemma_cast_mul(d1, n2);
    lemma_nonzero_product(d1, n2);
    lemma_frac_zero(n2, d2);
    let v = a / b;
    lemma_quotient_times_divisor(a, b);
    lemma_quotient_scaled(v, a, b, d1 as real, d2 as real, n1 as real, n2 as real);
    lemma_value_is(n1 * d2, d1 * n2, v);
}

/// A common factor of numerator and denominator cancels.
pub proof fn lemma_frac_cancel(num: int, den: int, k: int)
    requires
        den != 0,
        k != 0,
    ensures
        den * k != 0,
        frac(num * k, den * k) == frac(num, den),
{
    let v = frac(num, den);
    lemma_value_times_den(num, den);
    lemma_cast_mul(num, k);
    lemma_cast_mul(den, k);
    lemma_nonzero_product(den, k);
    lemma_rescaled(v, den as real, k as real, num as real);
    lemma_value_is(num * k, den * k, v);
}

/// Two fractions whose cross products agree are equal.
pub proof fn lemma_frac_eq(n1: int, d1: int, n2: int, d2: int)
    requires
        d1 != 0,
        d2 != 0,
        n1 * d2 == n2 * d1,
    ensures
        frac(n1, d1) == frac(n2, d2),
{
    lemma_frac_cancel(n1, d1, d2);
    lemma_frac_cancel(n2, d2, d1);
    assert(d1 * d2 == d2 * d1) by (nonlinear_arith);
}

/// A whole number is the fraction of itself over one.
pub proof fn lemma_frac_whole(n: int)
    ensures
        frac(n, 1) == (n as real),
{
    lemma_value_is(n, 1, n as real);
}

/// A fraction with a positive denominator compares with a whole number as its numerator
/// compares with the multiple of the denominator.
pub proof fn lemma_frac_order(num: int, den: int, k: int)
    requires
        den > 0,
    ensures
        (frac(num, den) < (k as real)) <==> (num < k * den),
        (frac(num, den) > (k as real)) <==> (num > k * den),
        (frac(num, den) == (k as real)) <==> (num == k * den),
{
    lemma_value_times_den(num, den);
    lemma_cast_mul(k, den);
    lemma_product_order(frac(num, den), k as real, den as real);
}

} // verus!
