//! Distances in pixels, kept exactly as their squares, and their length in nanometres.

use crate::geometry::{distance_squared, lemma_product_bound};
use crate::ratio::{frac, lemma_frac_mul, lemma_frac_order, lemma_frac_whole};
use crate::reals::lemma_cast_mul;
use vstd::prelude::*;

verus! {

/// The length of one pixel on the filament, in nanometres: the frame shows 6 mm in 640
/// pixels.
pub const NANOMETRES_PER_PIXEL: u64 = 9375;

/// The largest numerator that a [`PixelDistance`] may have: two to the power 101.
pub const MAX_SQUARE: u128 = 0x20_0000_0000_0000_0000_0000_0000;

/// A point on the pixel grid.
#[derive(Clone, Copy, Debug, PartialEq, Eq, Structural)]
pub struct Point {
    pub x: i32,
    pub y: i32,
}

impl View for Point {
    type V = (real, real);

    open spec fn view(&self) -> (real, real) {
        (self.x as real, self.y as real)
    }
}

/// A distance in pixels, held as its square `square_num / square_den`, which is rational
/// where the distance itself need not be.
#[derive(Clone, Copy, Debug)]
pub struct PixelDistance {
    pub square_num: u128,
    pub square_den: u128,
}

/// `n` is `scale` times the square root of `square`, rounded down to a whole number.
pub open spec fn is_scaled_root(n: int, scale: int, square: real) -> bool {
    &&& 0 <= n
    &&& ((n * n) as real) <= ((scale * scale) as real) * square
    &&& ((scale * scale) as real) * square < (((n + 1) * (n + 1)) as real)
}

/// Two whole numbers that are the rounded-down scaled root of one square are equal.
pub proof fn lemma_scaled_root_unique(m: int, n: int, scale: int, square: real)
    requires
        is_scaled_root(m, scale, square),
        is_scaled_root(n, scale, square),
    ensures
        m == n,
{
    if m < n {
        assert((m + 1) * (m + 1) <= n * n) by (nonlinear_arith)
            requires
                0 <= m,
                m + 1 <= n,
        ;
    }
    if n < m {
        assert((n + 1) * (n + 1) <= m * m) by (nonlinear_arith)
            requires
                0 <= n,
                n + 1 <= m,
        ;
    }
}

/// A fraction lies between two whole numbers when its numerator lies between their
/// multiples of the denominator.
pub proof fn lemma_frac_between(top: int, den: int, low: int, high: int)
    requires
        0 < den,
        low * den <= top,
        top < high * den,
    ensures
        (low as real) <= frac(top, den),
        frac(top, den) < (high as real),
{
    lemma_frac_order(top, den, low);
    lemma_frac_order(top, den, high);
}

/// A multiple of a fraction lies between two whole numbers when the multiple of its
/// numerator lies between their multiples of the denominator.
pub proof fn lemma_scaled_frac_between(k: int, num: int, den: int, low: int, high: int)
    requires
        0 < den,
        low * den <= k * num,
        k * num < high * den,
    ensures
        (low as real) <= (k as real) * frac(num, den),
        (k as real) * frac(num, den) < (high as real),
{
    lemma_frac_whole(k);
    lemma_frac_mul(k, 1, num, den);
    assert(1 * den == den);
    lemma_frac_between(k * num, den, low, high);
}

/// A whole number whose square, times `den`, brackets `scale * scale * num` is the
/// rounded-down scaled root of `num / den`.
pub proof fn lemma_scaled_root_from_bounds(n: int, scale: int, num: int, den: int)
    requires
        0 <= n,
        0 < den,
        (n * n) * den <= (scale * scale) * num,
        (scale * scale) * num < ((n + 1) * (n + 1)) * den,
    ensures
        is_scaled_root(n, scale, frac(num, den)),
{
    lemma_scaled_frac_between(scale * scale, num, den, n * n, (n + 1) * (n + 1));
}

impl PixelDistance {
    /// The denominator is positive and the numerator is at most [`MAX_SQUARE`].
    pub open spec fn wf(&self) -> bool {
        self.square_den > 0 && self.square_num <= MAX_SQUARE
    }

    /// The square of the distance.
    pub open spec fn squared(&self) -> real {
        frac(self.square_num as int, self.square_den as int)
    }

    /// Whether the distance is well formed.
    pub fn is_wf(&self) -> (ok: bool)
        ensures
            ok == self.wf(),
    {
        self.square_den > 0 && self.square_num <= MAX_SQUARE
    }

    /// The distance in nanometres on the filament, rounded down: the distance in pixels
    /// times [`NANOMETRES_PER_PIXEL`].
    pub fn nanometres(&self) -> (n: u64)
        requires
            self.wf(),
        ensures
            is_scaled_root(n as int, NANOMETRES_PER_PIXEL as int, self.squared()),
    {
        let scale: u128 = NANOMETRES_PER_PIXEL as u128;
        let factor: u128 = scale * scale;
        assert(factor == 87_890_625);
        let scaled: u128 = factor * self.square_num;
        let whole: u128 = scaled / self.square_den;
        let n: u64 = isqrt(whole);
        proof {
            let den = self.square_den as int;
            let num = self.square_num as int;
            let k = factor as int;
            assert(whole * den <= scaled < (whole + 1) * den) by (nonlinear_arith)
                requires
                    whole as int == (scaled as int) / den,
                    den > 0,
                    scaled >= 0,
            ;
            assert(n * n * den <= scaled < (n + 1) * (n + 1) * den) by (nonlinear_arith)
                requires
                    n * n <= whole,
                    whole < (n + 1) * (n + 1),
                    whole * den <= scaled,
                    scaled < (whole + 1) * den,
                    den > 0,
            ;
            assert(k * num == scaled);
            lemma_scaled_root_from_bounds(n as int, scale as int, num, den);
        }
        n
    }
}

/// The square root of `x`, rounded down.
pub fn isqrt(x: u128) -> (r: u64)
    ensures
        r * r <= x < (r + 1) * (r + 1),
{
    let mut lo: u128 = 0;
    let mut hi: u128 = 0x1_0000_0000_0000_0000;
    while hi - lo > 1
        invariant
            lo < hi <= 0x1_0000_0000_0000_0000,
            lo * lo <= x < hi * hi,
        decreases hi - lo,
    {
        let mid: u128 = lo + (hi - lo) / 2;
        proof {
            lemma_product_bound(
                mid as int,
                mid as int,
                0xffff_ffff_ffff_ffff,
                0xffff_ffff_ffff_ffff,
            );
        }
        if mid * mid <= x {
            lo = mid;
        } else {
            hi = mid;
        }
    }
    lo as u64
}

/// The distance between two points of the pixel grid.
pub fn euclidean_distance(first: &Point, second: &Point) -> (d: PixelDistance)
    ensures
        d.wf(),
        d.squared() == distance_squared(first@, second@),
        d.square_num == (first.x - second.x) * (first.x - second.x) + (first.y - second.y) * (
            first.y - second.y),
        d.square_den == 1,
{
    let dx: i64 = first.x as i64 - second.x as i64;
    let dy: i64 = first.y as i64 - second.y as i64;
    proof {
        lemma_product_bound(dx as int, dx as int, 0xffff_ffff, 0xffff_ffff);
        lemma_product_bound(dy as int, dy as int, 0xffff_ffff, 0xffff_ffff);
        assert(dx * dx >= 0 && dy * dy >= 0) by (nonlinear_arith);
        lemma_cast_mul(dx as int, dx as int);
        lemma_cast_mul(dy as int, dy as int);
        lemma_frac_whole(dx * dx + dy * dy);
    }
    let square: i128 = (dx as i128) * (dx as i128) + (dy as i128) * (dy as i128);
    PixelDistance { square_num: square as u128, square_den: 1 }
}

} // verus!
