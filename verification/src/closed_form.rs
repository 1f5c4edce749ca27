//! The construction of the gap, step by step, in whole numbers: each step of the
//! construction on slopes and intercepts is a quotient of polynomials in the coefficients of
//! the two lines.

use crate::geometry::{
    distance_squared, intersection_point, lemma_product_sign, normal_through, point_with_y,
};
use crate::ratio::{
    frac, lemma_frac_add, lemma_frac_div, lemma_frac_eq, lemma_frac_mul, lemma_frac_neg,
    lemma_frac_sub, lemma_frac_whole, lemma_frac_zero,
};
use vstd::prelude::*;

verus! {

/// The point at height `r` on the line `x * a + y * b == c` has the abscissa
/// `(c - r * b) / a`.
pub proof fn lemma_point_on_row(a: int, b: int, c: int, r: int)
    requires
        a != 0,
        b != 0,
    ensures
        -frac(a, b) != 0real,
        point_with_y(-frac(a, b), frac(c, b), r as real) == (frac(c - r * b, a), r as real),
{
    let rise: int = r * b - c * 1;
    let run: int = 1 * b;
    let minus_a: int = -a;
    lemma_frac_neg(a, b);
    lemma_frac_whole(r);
    lemma_frac_sub(r, 1, c, b);
    lemma_frac_div(rise, run, minus_a, b);
    let num: int = rise * b;
    let den: int = run * minus_a;
    let x: int = c - r * b;
    assert(num * a == x * den) by (nonlinear_arith)
        requires
            num == rise * b,
            den == run * minus_a,
            rise == r * b - c,
            run == b,
            minus_a == -a,
            x == c - r * b,
    ;
    lemma_frac_eq(num, den, x, a);
}

/// The normal through `(x / a, r)` of a line with the normal vector `(a, b)` has the slope
/// `b / a` and the intercept `(r * a * a - b * x) / (a * a)`.
pub proof fn lemma_normal_closed(a: int, b: int, x: int, r: int)
    requires
        a != 0,
        b != 0,
    ensures
        a * a != 0,
        normal_through(frac(x, a), r as real, -frac(a, b)) == (
            frac(b, a),
            frac(r * (a * a) - b * x, a * a),
        ),
{
    let minus_a: int = -a;
    let up: int = 1 * b;
    let along: int = 1 * minus_a;
    lemma_frac_neg(a, b);
    lemma_frac_whole(1);
    lemma_frac_div(1, 1, minus_a, b);
    lemma_frac_neg(up, along);
    let minus_up: int = -up;
    assert(minus_up * a == b * along) by (nonlinear_arith)
        requires
            minus_up == -b,
            along == -a,
    ;
    lemma_frac_eq(minus_up, along, b, a);
    assert(frac(b, a) == -(1real / (-frac(a, b))));
    let aa: int = a * a;
    let bx: int = b * x;
    lemma_product_sign(a, a);
    lemma_frac_mul(b, a, x, a);
    lemma_frac_whole(r);
    lemma_frac_sub(r, 1, bx, aa);
    assert(r * aa - bx * 1 == r * (a * a) - b * x);
    assert(1 * aa == a * a);
}

/// The normal of slope `b1 / a1` is parallel to the line `x * a2 + y * b2 == c2` exactly when
/// `a1 * a2 + b1 * b2` is zero.
pub proof fn lemma_turn(a1: int, b1: int, a2: int, b2: int)
    requires
        a1 != 0,
        b2 != 0,
    ensures
        a1 * b2 != 0,
        frac(b1, a1) - (-frac(a2, b2)) == frac(a1 * a2 + b1 * b2, a1 * b2),
        (frac(b1, a1) != -frac(a2, b2)) <==> (a1 * a2 + b1 * b2 != 0),
{
    let minus_a2: int = -a2;
    lemma_frac_neg(a2, b2);
    lemma_frac_sub(b1, a1, minus_a2, b2);
    let m: int = a1 * a2 + b1 * b2;
    let den: int = a1 * b2;
    assert(b1 * b2 - minus_a2 * a1 == m) by (nonlinear_arith)
        requires
            minus_a2 == -a2,
            m == a1 * a2 + b1 * b2,
    ;
    lemma_frac_zero(m, den);
}

/// The closed form of the end point on the right edge. With `x == c1 - r * b1`,
/// `m == a1 * a2 + b1 * b2` and `n == a1 * (c2 - r * b2) - a2 * x`, the normal through
/// `(x / a1, r)` meets the right edge in
/// `((x * m + n * a1) / (a1 * m), (r * a1 * m + n * b1) / (a1 * m))`.
pub proof fn lemma_point_right_closed(
    a1: int,
    b1: int,
    c1: int,
    a2: int,
    b2: int,
    c2: int,
    r: int,
)
    requires
        a1 != 0,
        b2 != 0,
        a1 * a2 + b1 * b2 != 0,
    ensures
        ({
            let x = c1 - r * b1;
            let m = a1 * a2 + b1 * b2;
            let n = a1 * (c2 - r * b2) - a2 * x;
            &&& a1 * m != 0
            &&& a1 * a1 != 0
            &&& intersection_point(
                frac(b1, a1),
                frac(r * (a1 * a1) - b1 * x, a1 * a1),
                -frac(a2, b2),
                frac(c2, b2),
            ) == (frac(x * m + n * a1, a1 * m), frac(r * (a1 * m) + n * b1, a1 * m))
        }),
{
    let x: int = c1 - r * b1;
    let m: int = a1 * a2 + b1 * b2;
    let x2: int = c2 - r * b2;
    let n: int = a1 * x2 - a2 * x;
    let aa: int = a1 * a1;
    let cn: int = r * aa - b1 * x;
    let am: int = a1 * m;
    let ab: int = a1 * b2;
    let xr: int = x * m + n * a1;
    let yr: int = r * am + n * b1;
    lemma_product_sign(a1, a1);
    lemma_product_sign(a1, m);
    lemma_turn(a1, b1, a2, b2);
    // The abscissa.
    lemma_frac_sub(c2, b2, cn, aa);
    let rise: int = c2 * aa - cn * b2;
    let run: int = b2 * aa;
    lemma_frac_div(rise, run, m, ab);
    let raw_num: int = rise * ab;
    let raw_den: int = run * m;
    let bx: int = b1 * x;
    let e: int = b1 * b2;
    let both: int = aa * x2 + bx * b2;
    assert(rise == both) by (nonlinear_arith)
        requires
            rise == (x2 + r * b2) * aa - (r * aa - bx) * b2,
            both == aa * x2 + bx * b2,
    ;
    assert(x * e == bx * b2) by (nonlinear_arith)
        requires
            e == b1 * b2,
            bx == b1 * x,
    ;
    assert(xr == x * e + aa * x2) by (nonlinear_arith)
        requires
            xr == x * (a1 * a2 + e) + (a1 * x2 - a2 * x) * a1,
            aa == a1 * a1,
    ;
    assert(raw_num * am == xr * raw_den) by (nonlinear_arith)
        requires
            raw_num == xr * ab,
            raw_den == run * m,
            run == b2 * aa,
            aa == a1 * a1,
            ab == a1 * b2,
            am == a1 * m,
    ;
    lemma_frac_eq(raw_num, raw_den, xr, am);
    let x_here = frac(xr, am);
    assert(x_here == (frac(c2, b2) - frac(cn, aa)) / (frac(b1, a1) - (-frac(a2, b2))));
    // The ordinate.
    lemma_frac_mul(b1, a1, xr, am);
    let climb: int = b1 * xr;
    let span: int = a1 * am;
    lemma_product_sign(a1, am);
    lemma_frac_add(climb, span, cn, aa);
    let top: int = climb * aa + cn * span;
    let bottom: int = span * aa;
    let core: int = b1 * xr + cn * m;
    let xm: int = x * m;
    let na: int = n * a1;
    let ram: int = r * am;
    let raa: int = r * aa;
    let nb: int = n * b1;
    assert(b1 * xr == b1 * xm + b1 * na) by (nonlinear_arith)
        requires
            xr == xm + na,
    ;
    assert(cn * m == raa * m - bx * m) by (nonlinear_arith)
        requires
            cn == raa - bx,
    ;
    assert(b1 * xm == bx * m) by (nonlinear_arith)
        requires
            xm == x * m,
            bx == b1 * x,
    ;
    assert(yr * a1 == ram * a1 + nb * a1) by (nonlinear_arith)
        requires
            yr == ram + nb,
    ;
    assert(nb * a1 == b1 * na) by (nonlinear_arith)
        requires
            nb == n * b1,
            na == n * a1,
    ;
    assert(ram * a1 == raa * m) by (nonlinear_arith)
        requires
            ram == r * (a1 * m),
            raa == r * (a1 * a1),
    ;
    assert(core == yr * a1);
    assert(top == core * aa) by (nonlinear_arith)
        requires
            top == climb * aa + cn * span,
            climb == b1 * xr,
            span == a1 * am,
            am == a1 * m,
            aa == a1 * a1,
            core == b1 * xr + cn * m,
    ;
    assert(top * am == yr * bottom) by (nonlinear_arith)
        requires
            top == core * aa,
            core == yr * a1,
            bottom == span * aa,
            span == a1 * am,
    ;
    lemma_frac_eq(top, bottom, yr, am);
}

/// The closed form of the squared gap: with `m` and `n` as in
/// [`lemma_point_right_closed`], the two end points are
/// `n * n * (a1 * a1 + b1 * b1) / (a1 * a1 * m * m)` apart, squared.
pub proof fn lemma_gap_closed(a1: int, b1: int, x: int, m: int, n: int, r: int)
    requires
        a1 != 0,
        m != 0,
    ensures
        (a1 * a1) * (m * m) != 0,
        distance_squared(
            (frac(x, a1), r as real),
            (frac(x * m + n * a1, a1 * m), frac(r * (a1 * m) + n * b1, a1 * m)),
        ) == frac((n * n) * (a1 * a1 + b1 * b1), (a1 * a1) * (m * m)),
{
    let am: int = a1 * m;
    let xr: int = x * m + n * a1;
    let yr: int = r * am + n * b1;
    let aa: int = a1 * a1;
    let bb: int = b1 * b1;
    let mm: int = m * m;
    let nn: int = n * n;
    lemma_product_sign(a1, m);
    lemma_product_sign(a1, a1);
    lemma_product_sign(m, m);
    lemma_product_sign(aa, mm);
    // The difference of the abscissas is -n / m.
    lemma_frac_sub(x, a1, xr, am);
    let dx_num: int = x * am - xr * a1;
    let dx_den: int = a1 * am;
    let minus_n: int = -n;
    assert(dx_num * m == minus_n * dx_den) by (nonlinear_arith)
        requires
            dx_num == x * am - xr * a1,
            dx_den == a1 * am,
            am == a1 * m,
            xr == x * m + n * a1,
            minus_n == -n,
    ;
    lemma_product_sign(a1, am);
    lemma_frac_eq(dx_num, dx_den, minus_n, m);
    // The difference of the ordinates is -(n * b1) / (a1 * m).
    lemma_frac_whole(r);
    lemma_frac_sub(r, 1, yr, am);
    let nb: int = n * b1;
    let minus_nb: int = -nb;
    assert(r * am - yr * 1 == minus_nb);
    assert(1 * am == am);
    // Their squares and the sum of the squares.
    lemma_frac_mul(minus_n, m, minus_n, m);
    lemma_frac_mul(minus_nb, am, minus_nb, am);
    let sx: int = minus_n * minus_n;
    let sy: int = minus_nb * minus_nb;
    let amam: int = am * am;
    lemma_product_sign(am, am);
    lemma_frac_add(sx, mm, sy, amam);
    let top: int = sx * amam + sy * mm;
    let bottom: int = mm * amam;
    let num: int = nn * (aa + bb);
    let den: int = aa * mm;
    assert(sx == nn) by (nonlinear_arith)
        requires
            sx == minus_n * minus_n,
            minus_n == -n,
            nn == n * n,
    ;
    assert(sy == nn * bb) by (nonlinear_arith)
        requires
            sy == minus_nb * minus_nb,
            minus_nb == -(n * b1),
            nn == n * n,
            bb == b1 * b1,
    ;
    assert(amam == aa * mm) by (nonlinear_arith)
        requires
            amam == am * am,
            am == a1 * m,
            aa == a1 * a1,
            mm == m * m,
    ;
    assert(top * den == num * bottom) by (nonlinear_arith)
        requires
            top == nn * amam + (nn * bb) * mm,
            amam == aa * mm,
            bottom == mm * amam,
            num == nn * (aa + bb),
            den == aa * mm,
    ;
    lemma_product_sign(mm, amam);
    lemma_frac_eq(top, bottom, num, den);
    let dx = frac(x, a1) - frac(xr, am);
    let dy = (r as real) - frac(yr, am);
    assert(dx == frac(minus_n, m));
    assert(dy == frac(minus_nb, am));
    assert(dx * dx + dy * dy == frac(num, den));
}

} // verus!
