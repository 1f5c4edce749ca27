//! Lines in polar form and their slope and intercept.

use crate::ratio::{frac, lemma_frac_neg, lemma_negate_both, Ratio};
use vstd::prelude::*;

verus! {

/// The largest magnitude that `cos` and `sin` of a [`PolarLine`] may have.
pub const MAX_DIRECTION: i32 = 4096;

/// The largest magnitude that `rho` of a [`PolarLine`] may have.
pub const MAX_OFFSET: i32 = 16_777_216;

/// The line of all points `(x, y)` with `x * cos + y * sin == rho`.
///
/// `(cos, sin)` points along the normal of the line, at the angle theta of the polar form, and
/// `rho` is the distance of the line from the origin; all three are multiplied by one common
/// positive factor, chosen by whoever builds the line, and rounded to whole numbers.
#[derive(Clone, Copy, Debug, PartialEq, Eq, Structural)]
pub struct PolarLine {
    pub rho: i32,
    pub cos: i32,
    pub sin: i32,
}

/// The outcome of a construction that has no answer: a slope that does not exist or is zero
/// where it must be inverted, or two lines that never meet.
#[derive(Clone, Copy, Debug, PartialEq, Eq, Structural)]
pub struct DegenerateGeometry;

impl PolarLine {
    /// The coefficients are in range and the normal is not the zero vector.
    pub open spec fn wf(&self) -> bool {
        &&& -MAX_OFFSET <= self.rho <= MAX_OFFSET
        &&& -MAX_DIRECTION <= self.cos <= MAX_DIRECTION
        &&& -MAX_DIRECTION <= self.sin <= MAX_DIRECTION
        &&& (self.cos != 0 || self.sin != 0)
    }

    /// The line can be written as `y == slope * x + y_intercept`: it is not vertical.
    pub open spec fn has_slope(&self) -> bool {
        self.sin != 0
    }

    /// The slope `-cos / sin` of the line; meaningful where [`Self::has_slope`] holds.
    pub open spec fn slope(&self) -> real {
        -frac(self.cos as int, self.sin as int)
    }

    /// The height `rho / sin` at which the line crosses `x == 0`; meaningful where
    /// [`Self::has_slope`] holds.
    pub open spec fn y_intercept(&self) -> real {
        frac(self.rho as int, self.sin as int)
    }

    /// Whether the point `(x, y)` lies on the line.
    pub open spec fn contains(&self, x: real, y: real) -> bool {
        x * (self.cos as real) + y * (self.sin as real) == (self.rho as real)
    }

    /// The line with the given coefficients, or `None` where they are out of range or the
    /// normal is the zero vector.
    pub fn new(rho: i32, cos: i32, sin: i32) -> (r: Option<PolarLine>)
        ensures
            r is Some <==> (PolarLine { rho, cos, sin }).wf(),
            r matches Some(line) ==> line == (PolarLine { rho, cos, sin }),
    {
        let line = PolarLine { rho, cos, sin };
        if line.is_wf() {
            Some(line)
        } else {
            None
        }
    }

    /// Whether the line is well formed.
    pub fn is_wf(&self) -> (ok: bool)
        ensures
            ok == self.wf(),
    {
        -MAX_OFFSET <= self.rho && self.rho <= MAX_OFFSET && -MAX_DIRECTION <= self.cos && self.cos
            <= MAX_DIRECTION && -MAX_DIRECTION <= self.sin && self.sin <= MAX_DIRECTION && (self.cos
            != 0 || self.sin != 0)
    }
}

/// The slope `-cos / sin` of a line, or [`DegenerateGeometry`] for a vertical line.
pub fn get_slope(line: &PolarLine) -> (r: Result<Ratio, DegenerateGeometry>)
    requires
        line.wf(),
    ensures
        r is Ok <==> line.has_slope(),
        r matches Ok(s) ==> s.wf() && s@ == line.slope() && s.num == (if line.sin > 0 {
            -line.cos
        } else {
            line.cos as int
        }) && s.den == (if line.sin > 0 {
            line.sin as int
        } else {
            -line.sin
        }),
{
    if line.sin == 0 {
        return Err(DegenerateGeometry);
    }
    let cos: i128 = line.cos as i128;
    let sin: i128 = line.sin as i128;
    proof {
        lemma_frac_neg(cos as int, sin as int);
        lemma_negate_both(-cos, sin as int);
    }
    if sin > 0 {
        Ok(Ratio { num: -cos, den: sin })
    } else {
        Ok(Ratio { num: cos, den: -sin })
    }
}

/// The intercept `rho / sin` of a line with the y axis, or [`DegenerateGeometry`] for a
/// vertical line.
pub fn get_y_intercept(line: &PolarLine) -> (r: Result<Ratio, DegenerateGeometry>)
    requires
        line.wf(),
    ensures
        r is Ok <==> line.has_slope(),
        r matches Ok(c) ==> c.wf() && c@ == line.y_intercept() && c.num == (if line.sin > 0 {
            line.rho as int
        } else {
            -line.rho
        }) && c.den == (if line.sin > 0 {
            line.sin as int
        } else {
            -line.sin
        }),
{
    if line.sin == 0 {
        return Err(DegenerateGeometry);
    }
    let rho: i128 = line.rho as i128;
    let sin: i128 = line.sin as i128;
    if sin > 0 {
        Ok(Ratio { num: rho, den: sin })
    } else {
        proof {
            lemma_negate_both(rho as int, sin as int);
        }
        Ok(Ratio { num: -rho, den: -sin })
    }
}

} // verus!
