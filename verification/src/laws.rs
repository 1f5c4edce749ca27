//! What holds of the measurement for every frame.

use crate::classify::{
    classification_of, crosses_top_row, indices_on_side, top_crossing, Classification,
    BAND_SPLIT, LEFT_BAND_START, RIGHT_BAND_END,
};
use crate::geometry::{lemma_product_sign, point_with_y};
use crate::line::PolarLine;
use crate::measure::{chosen_pair, width_of};
use crate::ratio::{frac, lemma_frac_eq, lemma_frac_neg, lemma_frac_zero, lemma_value_times_den};
use crate::reals::lemma_quotient_times_divisor;
use crate::solver::{gap_defined, gap_squared, lemma_gap_in_whole_numbers, SCAN_ROW};
use vstd::prelude::*;

verus! {

/// A point whose abscissa `x` solves `x * slope == y - intercept` lies on the line with the
/// normal `(c, s)` and the offset `rho` from which slope and intercept were taken.
pub proof fn lemma_on_line(
    x: real,
    y: real,
    slope: real,
    intercept: real,
    rho: real,
    c: real,
    s: real,
)
    by (nonlinear_arith)
    requires
        x * slope == y - intercept,
        intercept * s == rho,
        slope * s == -c,
    ensures
        x * c + y * s == rho,
{
}

/// Slope and intercept lose nothing: the point that they give at any height `y` lies on the
/// line that they were taken from, exactly. This holds of every line that is neither
/// vertical nor horizontal; a vertical line has no slope, and on a horizontal line no
/// height but one has a point.
pub proof fn law_point_lies_on_line(line: PolarLine, y: real)
    requires
        line.has_slope(),
        line.cos != 0,
    ensures
        line.slope() != 0real,
        ({
            let p = point_with_y(line.slope(), line.y_intercept(), y);
            line.contains(p.0, p.1)
        }),
{
    let slope = line.slope();
    let intercept = line.y_intercept();
    let p = point_with_y(slope, intercept, y);
    lemma_frac_neg(line.cos as int, line.sin as int);
    lemma_frac_zero(-line.cos, line.sin as int);
    lemma_value_times_den(-line.cos, line.sin as int);
    lemma_value_times_den(line.rho as int, line.sin as int);
    lemma_quotient_times_divisor(y - intercept, slope);
    lemma_on_line(
        p.0,
        y,
        slope,
        intercept,
        line.rho as real,
        line.cos as real,
        line.sin as real,
    );
}

/// A frame without lines has the width zero.
pub proof fn law_empty_frame()
    ensures
        width_of(Seq::<PolarLine>::empty()) == 0,
{
}

/// Where no line of `lines` is on `side`, no position is listed for that side.
pub proof fn lemma_side_without_lines(lines: Seq<PolarLine>, side: Classification)
    requires
        forall|i: int| 0 <= i < lines.len() ==> classification_of(#[trigger] lines[i]) != side,
    ensures
        indices_on_side(lines, side).len() == 0,
    decreases lines.len(),
{
    if lines.len() > 0 {
        let shorter = lines.drop_last();
        assert forall|i: int| 0 <= i < shorter.len() implies classification_of(
            #[trigger] shorter[i],
        ) != side by {
            assert(shorter[i] == lines[i]);
        }
        lemma_side_without_lines(shorter, side);
        assert(lines.last() == lines[lines.len() - 1]);
    }
}

/// A frame in which no line is a right edge has the width zero, whatever else it holds;
/// and so has a frame in which no line is a left edge.
pub proof fn law_one_sided_frame(lines: Seq<PolarLine>)
    requires
        (forall|i: int|
            0 <= i < lines.len() ==> classification_of(#[trigger] lines[i])
                != Classification::Right) || (forall|i: int|
            0 <= i < lines.len() ==> classification_of(#[trigger] lines[i])
                != Classification::Left),
    ensures
        chosen_pair(lines) is None,
        width_of(lines) == 0,
{
    if forall|i: int|
        0 <= i < lines.len() ==> classification_of(#[trigger] lines[i])
            != Classification::Right {
        lemma_side_without_lines(lines, Classification::Right);
    } else {
        lemma_side_without_lines(lines, Classification::Left);
    }
}

/// A vertical line, whose angle theta is zero or a half turn and whose `sin` is therefore
/// zero, is on neither side.
pub proof fn law_vertical_line_unclassified(line: PolarLine)
    requires
        line.sin == 0,
    ensures
        !crosses_top_row(line),
        classification_of(line) == Classification::Unclassified,
{
}

/// The width is a function of the lines alone: the same lines give the same width, each time.
pub proof fn law_same_lines_same_width(first: Seq<PolarLine>, second: Seq<PolarLine>)
    requires
        first == second,
    ensures
        width_of(first) == width_of(second),
{
}

/// The bounds of both bands are exclusive: a line that crosses the top row exactly on
/// column 20, 320 or 620 is on neither side.
pub proof fn law_band_edges_excluded(line: PolarLine)
    requires
        top_crossing(line).0 == (LEFT_BAND_START as real) || top_crossing(line).0 == (
        BAND_SPLIT as real) || top_crossing(line).0 == (RIGHT_BAND_END as real),
    ensures
        classification_of(line) == Classification::Unclassified,
{
}

/// Between two edges of one direction the gap is the distance between parallel lines: with
/// the common normal `(cos, sin)`, its square is the square of the difference of the two
/// offsets over `cos * cos + sin * sin`.
pub proof fn law_parallel_edges(left: PolarLine, right: PolarLine)
    requires
        left.cos == right.cos,
        left.sin == right.sin,
        left.cos != 0,
        left.sin != 0,
    ensures
        gap_defined(left, right),
        gap_squared(left, right) == frac(
            (right.rho - left.rho) * (right.rho - left.rho),
            left.cos * left.cos + left.sin * left.sin,
        ),
{
    let a: int = left.cos as int;
    let b: int = left.sin as int;
    let c1: int = left.rho as int;
    let c2: int = right.rho as int;
    let r: int = SCAN_ROW as int;
    let x: int = c1 - r * b;
    let aa: int = a * a;
    let bb: int = b * b;
    let m: int = a * a + b * b;
    let n: int = a * (c2 - r * b) - a * x;
    let d: int = c2 - c1;
    lemma_product_sign(a, a);
    lemma_product_sign(b, b);
    lemma_gap_in_whole_numbers(left, right);
    let num: int = (n * n) * (aa + bb);
    let den: int = aa * (m * m);
    let dd: int = d * d;
    assert(n == a * d) by (nonlinear_arith)
        requires
            n == a * (c2 - r * b) - a * x,
            x == c1 - r * b,
            d == c2 - c1,
    ;
    assert(num * m == dd * den) by (nonlinear_arith)
        requires
            num == (n * n) * m,
            n == a * d,
            den == aa * (m * m),
            aa == a * a,
            dd == d * d,
    ;
    lemma_frac_eq(num, den, dd, m);
}

} // verus!
