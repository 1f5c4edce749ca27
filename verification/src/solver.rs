//! The gap between a left and a right edge, measured across the filament.
//!
//! The gap is taken at the scan row: from the point of the left edge on that row, at right
//! angles to the left edge, to the right edge.

use crate::closed_form::{
    lemma_gap_closed, lemma_normal_closed, lemma_point_on_row, lemma_point_right_closed,
    lemma_turn,
};
use crate::distance::PixelDistance;
use crate::geometry::{
    distance_squared, intersection_point, lemma_product_bound, lemma_product_sign,
    normal_through, point_with_y, Point2D,
};
use crate::line::{DegenerateGeometry, PolarLine};
use crate::ratio::{frac, lemma_frac_whole, lemma_frac_zero, lemma_negate_both, Ratio};
use vstd::prelude::*;

verus! {

/// The row of the image on which the width is taken: the middle of a frame 480 rows high.
pub const SCAN_ROW: i32 = 240;

/// The point of the left edge on the scan row.
pub open spec fn point_left(left: PolarLine) -> (real, real) {
    point_with_y(left.slope(), left.y_intercept(), SCAN_ROW as real)
}

/// Slope and intercept of the line through [`point_left`] at right angles to the left edge.
pub open spec fn normal_at_point_left(left: PolarLine) -> (real, real) {
    let p = point_left(left);
    normal_through(p.0, p.1, left.slope())
}

/// The point where the normal of the left edge through [`point_left`] meets the right
/// edge.
pub open spec fn point_right(left: PolarLine, right: PolarLine) -> (real, real) {
    let n = normal_at_point_left(left);
    intersection_point(n.0, n.1, right.slope(), right.y_intercept())
}

/// Both edges have a slope, that of the left edge is not zero, and the normal of the left
/// edge is not parallel to the right edge: every step of the construction has an answer.
pub open spec fn gap_defined(left: PolarLine, right: PolarLine) -> bool {
    &&& left.has_slope()
    &&& left.slope() != 0real
    &&& right.has_slope()
    &&& normal_at_point_left(left).0 != right.slope()
}

/// The square of the distance from [`point_left`] to [`point_right`].
pub open spec fn gap_squared(left: PolarLine, right: PolarLine) -> real {
    distance_squared(point_left(left), point_right(left, right))
}

/// The outcome of the construction: its two end points and the distance between them.
#[derive(Clone, Copy, Debug)]
pub struct Gap {
    pub point_left: Point2D,
    pub point_right: Point2D,
    pub distance: PixelDistance,
}

/// The offset of a line less its `sin` times the row: the numerator of the abscissa at which
/// the line crosses that row, over `cos`.
pub open spec fn offset_on_row(line: PolarLine, row: int) -> int {
    line.rho - row * line.sin
}

/// The inner product of the normals of two lines; zero where the lines are at right angles.
pub open spec fn alignment(left: PolarLine, right: PolarLine) -> int {
    left.cos * right.cos + left.sin * right.sin
}

/// How far the right edge lies from the point of the left edge on the scan row, measured
/// along the normal of the right edge and scaled by `cos` of the left edge.
pub open spec fn separation(left: PolarLine, right: PolarLine) -> int {
    left.cos * offset_on_row(right, SCAN_ROW as int) - right.cos * offset_on_row(
        left,
        SCAN_ROW as int,
    )
}

/// The construction in whole numbers. The gap has an answer exactly where neither edge is
/// vertical, the left edge is not horizontal, and the two edges are not at right angles.
/// Its end points and its square are then quotients of polynomials in the coefficients of
/// the two lines.
pub proof fn lemma_gap_in_whole_numbers(left: PolarLine, right: PolarLine)
    ensures
        gap_defined(left, right) <==> left.sin != 0 && left.cos != 0 && right.sin != 0
            && alignment(left, right) != 0,
        gap_defined(left, right) ==> {
            let x = offset_on_row(left, SCAN_ROW as int);
            let m = alignment(left, right);
            let n = separation(left, right);
            &&& left.cos * m != 0
            &&& (left.cos * left.cos) * (m * m) != 0
            &&& point_left(left) == (frac(x, left.cos as int), SCAN_ROW as real)
            &&& point_right(left, right) == (
                frac(x * m + n * left.cos, left.cos * m),
                frac(SCAN_ROW * (left.cos * m) + n * left.sin, left.cos * m),
            )
            &&& gap_squared(left, right) == frac(
                (n * n) * (left.cos * left.cos + left.sin * left.sin),
                (left.cos * left.cos) * (m * m),
            )
        },
{
    let a1: int = left.cos as int;
    let b1: int = left.sin as int;
    let c1: int = left.rho as int;
    let a2: int = right.cos as int;
    let b2: int = right.sin as int;
    let c2: int = right.rho as int;
    let row: int = SCAN_ROW as int;
    if b1 != 0 && b2 != 0 {
        lemma_frac_zero(a1, b1);
        if a1 != 0 {
            let x: int = c1 - row * b1;
            let m: int = a1 * a2 + b1 * b2;
            let n: int = a1 * (c2 - row * b2) - a2 * x;
            lemma_point_on_row(a1, b1, c1, row);
            lemma_normal_closed(a1, b1, x, row);
            lemma_turn(a1, b1, a2, b2);
            assert(point_left(left) == (frac(x, a1), row as real));
            assert(normal_at_point_left(left).0 == frac(b1, a1));
            if m != 0 {
                lemma_point_right_closed(a1, b1, c1, a2, b2, c2, row);
                lemma_gap_closed(a1, b1, x, m, n, row);
                assert(point_right(left, right) == (
                    frac(x * m + n * a1, a1 * m),
                    frac(row * (a1 * m) + n * b1, a1 * m),
                ));
            }
        }
    }
}

/// The gap across the filament between a left and a right edge: the point of the left edge
/// on the scan row, the point where the normal of the left edge through it meets the right
/// edge, and the distance between the two. The construction fails with
/// [`DegenerateGeometry`] exactly where one of its steps has no answer: see
/// [`gap_defined`].
pub fn solve_gap(left: &PolarLine, right: &PolarLine) -> (r: Result<Gap, DegenerateGeometry>)
    requires
        left.wf(),
        right.wf(),
    ensures
        r is Ok <==> gap_defined(*left, *right),
        r matches Ok(g) ==> {
            &&& g.point_left.wf()
            &&& g.point_right.wf()
            &&& g.distance.wf()
            &&& g.point_left@ == point_left(*left)
            &&& g.point_right@ == point_right(*left, *right)
            &&& g.distance.squared() == gap_squared(*left, *right)
        },
{
    let a1: i128 = left.cos as i128;
    let b1: i128 = left.sin as i128;
    let c1: i128 = left.rho as i128;
    let a2: i128 = right.cos as i128;
    let b2: i128 = right.sin as i128;
    let c2: i128 = right.rho as i128;
    let row: i128 = SCAN_ROW as i128;
    proof {
        lemma_gap_in_whole_numbers(*left, *right);
    }
    if b1 == 0 || b2 == 0 || a1 == 0 {
        return Err(DegenerateGeometry);
    }
    let ghost dir: int = 0x1000;
    let ghost reach: int = 17_760_256;
    let ghost turn: int = 0x200_0000;
    let ghost cross: int = 145_492_017_152;
    proof {
        lemma_product_bound(a1 as int, a2 as int, dir, dir);
        lemma_product_bound(b1 as int, b2 as int, dir, dir);
    }
    let m: i128 = a1 * a2 + b1 * b2;
    if m == 0 {
        return Err(DegenerateGeometry);
    }
    let x: i128 = c1 - row * b1;
    let x2: i128 = c2 - row * b2;
    proof {
        lemma_product_bound(a1 as int, x2 as int, dir, reach);
        lemma_product_bound(a2 as int, x as int, dir, reach);
    }
    let n: i128 = a1 * x2 - a2 * x;
    proof {
        lemma_product_bound(a1 as int, m as int, dir, turn);
        lemma_product_bound(x as int, m as int, reach, turn);
        lemma_product_bound(n as int, a1 as int, cross, dir);
        lemma_product_bound(n as int, b1 as int, cross, dir);
        lemma_product_sign(a1 as int, m as int);
    }
    let am: i128 = a1 * m;
    let xr: i128 = x * m + n * a1;
    let yr: i128 = row * am + n * b1;
    proof {
        lemma_product_bound(n as int, n as int, cross, cross);
        lemma_product_bound(a1 as int, a1 as int, dir, dir);
        lemma_product_bound(b1 as int, b1 as int, dir, dir);
        lemma_product_bound(m as int, m as int, turn, turn);
        lemma_product_sign(n as int, n as int);
        lemma_product_sign(a1 as int, a1 as int);
        lemma_product_sign(b1 as int, b1 as int);
        lemma_product_sign(m as int, m as int);
    }
    let nn: i128 = n * n;
    let aa: i128 = a1 * a1;
    let len: i128 = aa + b1 * b1;
    let mm: i128 = m * m;
    proof {
        lemma_product_bound(nn as int, len as int, cross * cross, turn);
        lemma_product_bound(aa as int, mm as int, dir * dir, turn * turn);
        lemma_product_sign(nn as int, len as int);
        lemma_product_sign(aa as int, mm as int);
    }
    let square_num: i128 = nn * len;
    let square_den: i128 = aa * mm;
    proof {
        lemma_negate_both(x as int, a1 as int);
        lemma_negate_both(xr as int, am as int);
        lemma_negate_both(yr as int, am as int);
        lemma_frac_whole(row as int);
    }
    let from_x = if a1 > 0 {
        Ratio { num: x, den: a1 }
    } else {
        Ratio { num: -x, den: -a1 }
    };
    let to_x = if am > 0 {
        Ratio { num: xr, den: am }
    } else {
        Ratio { num: -xr, den: -am }
    };
    let to_y = if am > 0 {
        Ratio { num: yr, den: am }
    } else {
        Ratio { num: -yr, den: -am }
    };
    Ok(
        Gap {
            point_left: Point2D { x: from_x, y: Ratio { num: row, den: 1 } },
            point_right: Point2D { x: to_x, y: to_y },
            distance: PixelDistance {
                square_num: square_num as u128,
                square_den: square_den as u128,
            },
        },
    )
}

} // verus!
