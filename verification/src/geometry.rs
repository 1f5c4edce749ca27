//! Points, and the constructions on lines in slope and intercept form.

use crate::distance::Point;
use crate::line::DegenerateGeometry;
use crate::ratio::{
    frac, lemma_frac_add, lemma_frac_div, lemma_frac_mul, lemma_frac_neg,
    lemma_frac_order, lemma_frac_sub, lemma_frac_whole, lemma_negate_both, Ratio,
};
use vstd::prelude::*;

verus! {

/// The largest magnitude of numerator and denominator that [`get_point_with_y`] and
/// [`get_normal`] accept in each argument: two to the power 40.
pub const WIDE_LIMIT: i128 = 0x100_0000_0000;

/// The largest magnitude of numerator and denominator that [`get_intersection_point`] accepts
/// in each argument: two to the power 20.
pub const NARROW_LIMIT: i128 = 0x10_0000;

/// A point of the image plane with exact coordinates, in pixels.
#[derive(Clone, Copy, Debug)]
pub struct Point2D {
    pub x: Ratio,
    pub y: Ratio,
}

impl View for Point2D {
    type V = (real, real);

    open spec fn view(&self) -> (real, real) {
        (self.x@, self.y@)
    }
}

impl Point2D {
    /// Both coordinates are well-formed fractions.
    pub open spec fn wf(&self) -> bool {
        self.x.wf() && self.y.wf()
    }

    /// Both coordinates, rounded toward zero, are within the range of the pixel grid.
    pub open spec fn on_grid(&self) -> bool {
        &&& i32::MIN <= self.x.truncate_spec() <= i32::MAX
        &&& i32::MIN <= self.y.truncate_spec() <= i32::MAX
    }

    /// The pixel that holds the point: both coordinates rounded toward zero. `None` where
    /// the point is not well formed or one coordinate is out of the range of the pixel grid.
    pub fn to_pixel(&self) -> (r: Option<Point>)
        ensures
            r is Some <==> self.wf() && self.on_grid(),
            r matches Some(p) ==> p.x == self.x.truncate_spec() && p.y
                == self.y.truncate_spec(),
    {
        if self.x.den <= 0 || self.y.den <= 0 {
            return None;
        }
        let x: i128 = self.x.truncate();
        let y: i128 = self.y.truncate();
        if x < i32::MIN as i128 || x > i32::MAX as i128 || y < i32::MIN as i128 || y
            > i32::MAX as i128 {
            None
        } else {
            Some(Point { x: x as i32, y: y as i32 })
        }
    }
}

/// The point at height `y` on the line `y == slope * x + c`.
pub open spec fn point_with_y(slope: real, c: real, y: real) -> (real, real) {
    ((y - c) / slope, y)
}

/// Slope and intercept of the line through `(x, y)` at right angles to a line of the given
/// slope.
pub open spec fn normal_through(x: real, y: real, slope: real) -> (real, real) {
    let slope_out = -(1real / slope);
    (slope_out, y - slope_out * x)
}

/// The point where `y == slope1 * x + c1` meets `y == slope2 * x + c2`.
pub open spec fn intersection_point(slope1: real, c1: real, slope2: real, c2: real) -> (
    real,
    real,
) {
    let x = (c2 - c1) / (slope1 - slope2);
    (x, slope1 * x + c1)
}

/// The square of the distance between two points.
pub open spec fn distance_squared(p: (real, real), q: (real, real)) -> real {
    (p.0 - q.0) * (p.0 - q.0) + (p.1 - q.1) * (p.1 - q.1)
}

/// The product of two numbers of bounded magnitude is bounded by the product of the bounds.
pub proof fn lemma_product_bound(a: int, b: int, la: int, lb: int)
    requires
        -la <= a <= la,
        -lb <= b <= lb,
    ensures
        -(la * lb) <= a * b <= la * lb,
{
    assert(-(la * lb) <= a * b <= la * lb) by (nonlinear_arith)
        requires
            -la <= a <= la,
            -lb <= b <= lb,
    ;
}

/// The product of two numbers has the sign that their signs give it.
pub proof fn lemma_product_sign(a: int, b: int)
    ensures
        a > 0 && b > 0 ==> a * b > 0,
        a > 0 && b < 0 ==> a * b < 0,
        a < 0 && b > 0 ==> a * b < 0,
        a < 0 && b < 0 ==> a * b > 0,
        a == 0 || b == 0 ==> a * b == 0,
{
    assert((a > 0 && b > 0 ==> a * b > 0) && (a > 0 && b < 0 ==> a * b < 0) && (a < 0 && b > 0
        ==> a * b < 0) && (a < 0 && b < 0 ==> a * b > 0) && (a == 0 || b == 0 ==> a * b == 0))
        by (nonlinear_arith);
}

/// The point at height `y` on the line `y == slope * x + c`: its abscissa is
/// `(y - c) / slope`. A line of slope zero has no such point, or all of its points are.
pub fn get_point_with_y(slope: &Ratio, c: &Ratio, y: &Ratio) -> (r: Result<
    Point2D,
    DegenerateGeometry,
>)
    requires
        slope.within(WIDE_LIMIT as int),
        c.within(WIDE_LIMIT as int),
        y.within(WIDE_LIMIT as int),
    ensures
        r is Ok <==> slope@ != 0real,
        r matches Ok(p) ==> p.wf() && p@ == point_with_y(slope@, c@, y@) && p.y == *y,
        r matches Ok(p) ==> p.x.num == (if slope.num > 0 {
            (y.num * c.den - c.num * y.den) * slope.den
        } else {
            -((y.num * c.den - c.num * y.den) * slope.den)
        }) && p.x.den == (if slope.num > 0 {
            y.den * c.den * slope.num
        } else {
            -(y.den * c.den * slope.num)
        }),
{
    if slope.is_zero() {
        return Err(DegenerateGeometry);
    }
    let limit: i128 = WIDE_LIMIT;
    proof {
        lemma_product_bound(y.num as int, c.den as int, limit as int, limit as int);
        lemma_product_bound(c.num as int, y.den as int, limit as int, limit as int);
        lemma_product_bound(y.den as int, c.den as int, limit as int, limit as int);
        lemma_product_sign(y.den as int, c.den as int);
    }
    let diff: i128 = y.num * c.den - c.num * y.den;
    let scale: i128 = y.den * c.den;
    proof {
        lemma_product_bound(diff as int, slope.den as int, 2 * limit * limit, limit as int);
        lemma_product_bound(scale as int, slope.num as int, limit * limit, limit as int);
        lemma_product_sign(scale as int, slope.num as int);
    }
    let num: i128 = diff * slope.den;
    let den: i128 = scale * slope.num;
    proof {
        lemma_frac_sub(y.num as int, y.den as int, c.num as int, c.den as int);
        lemma_frac_div(diff as int, scale as int, slope.num as int, slope.den as int);
        lemma_negate_both(num as int, den as int);
    }
    if den > 0 {
        Ok(Point2D { x: Ratio { num, den }, y: *y })
    } else {
        Ok(Point2D { x: Ratio { num: -num, den: -den }, y: *y })
    }
}

/// Slope and intercept of the line through `(x, y)` at right angles to an edge of the given
/// slope: the slope is `-1 / slope`, and the intercept is `y` less that slope times `x`. An
/// edge of slope zero has a vertical normal, which has neither. The intercept of the edge,
/// the last argument, plays no part: the point need not lie on the edge.
pub fn get_normal(x: &Ratio, y: &Ratio, slope: &Ratio, _c: &Ratio) -> (r: Result<
    (Ratio, Ratio),
    DegenerateGeometry,
>)
    requires
        x.within(WIDE_LIMIT as int),
        y.within(WIDE_LIMIT as int),
        slope.within(WIDE_LIMIT as int),
    ensures
        r is Ok <==> slope@ != 0real,
        r matches Ok(n) ==> n.0.wf() && n.1.wf() && (n.0@, n.1@) == normal_through(
            x@,
            y@,
            slope@,
        ),
        r matches Ok(n) ==> n.0.num == (if slope.num > 0 {
            -slope.den
        } else {
            slope.den as int
        }) && n.0.den == (if slope.num > 0 {
            slope.num as int
        } else {
            -slope.num
        }) && n.1.num == y.num * (n.0.den * x.den) - (n.0.num * x.num) * y.den && n.1.den
            == y.den * (n.0.den * x.den),
{
    if slope.is_zero() {
        return Err(DegenerateGeometry);
    }
    let limit: i128 = WIDE_LIMIT;
    let out_num: i128 = if slope.num > 0 {
        -slope.den
    } else {
        slope.den
    };
    let out_den: i128 = if slope.num > 0 {
        slope.num
    } else {
        -slope.num
    };
    proof {
        lemma_frac_whole(1);
        lemma_frac_div(1, 1, slope.num as int, slope.den as int);
        lemma_frac_neg(slope.den as int, slope.num as int);
        lemma_negate_both(-slope.den, slope.num as int);
        assert(frac(out_num as int, out_den as int) == -(1real / slope@));
        lemma_product_bound(out_den as int, x.den as int, limit as int, limit as int);
        lemma_product_bound(out_num as int, x.num as int, limit as int, limit as int);
        lemma_product_sign(out_den as int, x.den as int);
    }
    let scale: i128 = out_den * x.den;
    let prod: i128 = out_num * x.num;
    proof {
        lemma_product_bound(y.num as int, scale as int, limit as int, limit * limit);
        lemma_product_bound(prod as int, y.den as int, limit * limit, limit as int);
        lemma_product_bound(y.den as int, scale as int, limit as int, limit * limit);
        lemma_product_sign(y.den as int, scale as int);
        lemma_frac_mul(out_num as int, out_den as int, x.num as int, x.den as int);
        lemma_frac_sub(y.num as int, y.den as int, prod as int, scale as int);
    }
    let num: i128 = y.num * scale - prod * y.den;
    let den: i128 = y.den * scale;
    Ok((Ratio { num: out_num, den: out_den }, Ratio { num, den }))
}

/// The point where the line `y == slope1 * x + c1` meets the line `y == slope2 * x + c2`:
/// its abscissa is `(c2 - c1) / (slope1 - slope2)`, its ordinate the value of the first line
/// there. Lines of equal slope do not meet in one point.
pub fn get_intersection_point(slope1: &Ratio, c1: &Ratio, slope2: &Ratio, c2: &Ratio) -> (r:
    Result<Point2D, DegenerateGeometry>)
    requires
        slope1.within(NARROW_LIMIT as int),
        c1.within(NARROW_LIMIT as int),
        slope2.within(NARROW_LIMIT as int),
        c2.within(NARROW_LIMIT as int),
    ensures
        r is Ok <==> slope1@ != slope2@,
        r matches Ok(p) ==> p.wf() && p@ == intersection_point(slope1@, c1@, slope2@, c2@),
{
    let limit: i128 = NARROW_LIMIT;
    proof {
        lemma_product_bound(c2.num as int, c1.den as int, limit as int, limit as int);
        lemma_product_bound(c1.num as int, c2.den as int, limit as int, limit as int);
        lemma_product_bound(c2.den as int, c1.den as int, limit as int, limit as int);
        lemma_product_sign(c2.den as int, c1.den as int);
        lemma_product_bound(slope1.num as int, slope2.den as int, limit as int, limit as int);
        lemma_product_bound(slope2.num as int, slope1.den as int, limit as int, limit as int);
        lemma_product_bound(slope1.den as int, slope2.den as int, limit as int, limit as int);
        lemma_product_sign(slope1.den as int, slope2.den as int);
    }
    let rise_num: i128 = c2.num * c1.den - c1.num * c2.den;
    let rise_den: i128 = c2.den * c1.den;
    let turn_num: i128 = slope1.num * slope2.den - slope2.num * slope1.den;
    let turn_den: i128 = slope1.den * slope2.den;
    proof {
        lemma_frac_sub(c2.num as int, c2.den as int, c1.num as int, c1.den as int);
        lemma_frac_sub(
            slope1.num as int,
            slope1.den as int,
            slope2.num as int,
            slope2.den as int,
        );
        lemma_frac_order(turn_num as int, turn_den as int, 0);
        assert(slope1@ - slope2@ == frac(turn_num as int, turn_den as int));
        assert(turn_num == 0 <==> slope1@ == slope2@);
    }
    if turn_num == 0 {
        return Err(DegenerateGeometry);
    }
    proof {
        lemma_product_bound(
            rise_num as int,
            turn_den as int,
            2 * limit * limit,
            limit * limit,
        );
        lemma_product_bound(
            rise_den as int,
            turn_num as int,
            limit * limit,
            2 * limit * limit,
        );
        lemma_product_sign(rise_den as int, turn_num as int);
        lemma_frac_div(rise_num as int, rise_den as int, turn_num as int, turn_den as int);
        lemma_negate_both(rise_num * turn_den, rise_den * turn_num);
    }
    let raw_num: i128 = rise_num * turn_den;
    let raw_den: i128 = rise_den * turn_num;
    let x_num: i128 = if raw_den > 0 {
        raw_num
    } else {
        -raw_num
    };
    let x_den: i128 = if raw_den > 0 {
        raw_den
    } else {
        -raw_den
    };
    let ghost wide: int = 2 * limit * limit * limit * limit;
    proof {
        assert(frac(x_num as int, x_den as int) == (c2@ - c1@) / (slope1@ - slope2@));
        lemma_product_bound(slope1.num as int, x_num as int, limit as int, wide);
        lemma_product_bound(slope1.den as int, x_den as int, limit as int, wide);
        lemma_product_sign(slope1.den as int, x_den as int);
    }
    let climb: i128 = slope1.num * x_num;
    let span: i128 = slope1.den * x_den;
    proof {
        lemma_product_bound(climb as int, c1.den as int, limit * wide, limit as int);
        lemma_product_bound(c1.num as int, span as int, limit as int, limit * wide);
        lemma_product_bound(span as int, c1.den as int, limit * wide, limit as int);
        lemma_product_sign(span as int, c1.den as int);
        lemma_frac_mul(slope1.num as int, slope1.den as int, x_num as int, x_den as int);
        lemma_frac_add(climb as int, span as int, c1.num as int, c1.den as int);
    }
    let y_num: i128 = climb * c1.den + c1.num * span;
    let y_den: i128 = span * c1.den;
    Ok(Point2D { x: Ratio { num: x_num, den: x_den }, y: Ratio { num: y_num, den: y_den } })
}

} // verus!
