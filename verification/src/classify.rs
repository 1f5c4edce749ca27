//! Sorting detected lines into left and right edges by where they cross the top row.

use crate::geometry::{get_point_with_y, lemma_product_bound, point_with_y, Point2D};
use crate::line::{get_slope, get_y_intercept, DegenerateGeometry, PolarLine};
use crate::ratio::{frac, lemma_frac_order, lemma_frac_zero, lemma_negate_both, Ratio};
use crate::closed_form::lemma_point_on_row;
use vstd::prelude::*;

verus! {

/// The left band begins right of this column.
pub const LEFT_BAND_START: i32 = 20;

/// The left band ends left of this column, and the right band begins right of it.
pub const BAND_SPLIT: i32 = 320;

/// The right band ends left of this column.
pub const RIGHT_BAND_END: i32 = 620;

/// The edge of the filament that a line is taken for.
#[derive(Clone, Copy, Debug, PartialEq, Eq, Structural)]
pub enum Classification {
    Left,
    Right,
    Unclassified,
}

/// The line is well formed and crosses the top row of the image in exactly one point:
/// it is neither vertical nor horizontal.
pub open spec fn crosses_top_row(line: PolarLine) -> bool {
    line.wf() && line.has_slope() && line.slope() != 0real
}

/// The point where the line crosses the top row, `y == 0`.
pub open spec fn top_crossing(line: PolarLine) -> (real, real) {
    point_with_y(line.slope(), line.y_intercept(), 0real)
}

/// The side of a line. A line that crosses the top row strictly between
/// [`LEFT_BAND_START`] and [`BAND_SPLIT`] is a left edge, one that crosses it strictly
/// between [`BAND_SPLIT`] and [`RIGHT_BAND_END`] is a right edge. Every bound is exclusive:
/// a line through one of the three columns themselves belongs to neither band, as does a
/// line that is malformed, vertical or horizontal.
pub open spec fn classification_of(line: PolarLine) -> Classification {
    let x = top_crossing(line).0;
    if !crosses_top_row(line) {
        Classification::Unclassified
    } else if (LEFT_BAND_START as real) < x && x < (BAND_SPLIT as real) {
        Classification::Left
    } else if (BAND_SPLIT as real) < x && x < (RIGHT_BAND_END as real) {
        Classification::Right
    } else {
        Classification::Unclassified
    }
}

/// The line crosses the top row strictly between the columns `low` and `high`, said of its
/// coefficients: the crossing is at `rho / cos`.
pub open spec fn crosses_between(line: PolarLine, low: int, high: int) -> bool {
    if line.cos > 0 {
        low * line.cos < line.rho && line.rho < high * line.cos
    } else {
        high * line.cos < line.rho && line.rho < low * line.cos
    }
}

/// The side of a line in whole numbers: a well-formed line that is neither vertical nor
/// horizontal crosses the top row at `rho / cos`, and its side is decided by comparing
/// `rho` with the multiples of `cos` that stand for the bounds of the bands.
pub proof fn lemma_classification_in_whole_numbers(line: PolarLine)
    ensures
        crosses_top_row(line) <==> line.wf() && line.sin != 0 && line.cos != 0,
        crosses_top_row(line) ==> top_crossing(line) == (
            frac(line.rho as int, line.cos as int),
            0real,
        ),
        classification_of(line) == (if !line.wf() || line.sin == 0 || line.cos == 0 {
            Classification::Unclassified
        } else if crosses_between(line, LEFT_BAND_START as int, BAND_SPLIT as int) {
            Classification::Left
        } else if crosses_between(line, BAND_SPLIT as int, RIGHT_BAND_END as int) {
            Classification::Right
        } else {
            Classification::Unclassified
        }),
{
    let a: int = line.cos as int;
    let b: int = line.sin as int;
    let c: int = line.rho as int;
    if b != 0 {
        lemma_frac_zero(a, b);
        if a != 0 {
            lemma_point_on_row(a, b, c, 0);
            lemma_negate_both(c, a);
            if a > 0 {
                lemma_frac_order(c, a, LEFT_BAND_START as int);
                lemma_frac_order(c, a, BAND_SPLIT as int);
                lemma_frac_order(c, a, RIGHT_BAND_END as int);
            } else {
                lemma_frac_order(-c, -a, LEFT_BAND_START as int);
                lemma_frac_order(-c, -a, BAND_SPLIT as int);
                lemma_frac_order(-c, -a, RIGHT_BAND_END as int);
            }
        }
    }
}

/// The positions, in ascending order, of the lines of `lines` that are on `side`.
pub open spec fn indices_on_side(lines: Seq<PolarLine>, side: Classification) -> Seq<usize>
    decreases lines.len(),
{
    if lines.len() == 0 {
        Seq::empty()
    } else {
        let before = indices_on_side(lines.drop_last(), side);
        if classification_of(lines.last()) == side {
            before.push((lines.len() - 1) as usize)
        } else {
            before
        }
    }
}

/// The point where a line crosses the top row of the image, or [`DegenerateGeometry`] for a
/// vertical or horizontal line.
pub fn line_begins_at(line: &PolarLine) -> (r: Result<Point2D, DegenerateGeometry>)
    requires
        line.wf(),
    ensures
        r is Ok <==> crosses_top_row(*line),
        r matches Ok(p) ==> p.wf() && p@ == top_crossing(*line) && p.x.den <= 0x100_0000
            && -0x10_0000_0000 <= p.x.num <= 0x10_0000_0000,
{
    let slope = match get_slope(line) {
        Ok(s) => s,
        Err(e) => {
            return Err(e);
        },
    };
    let c = match get_y_intercept(line) {
        Ok(c) => c,
        Err(e) => {
            return Err(e);
        },
    };
    let top = Ratio::from_int(0);
    let r = get_point_with_y(&slope, &c, &top);
    proof {
        let rise: int = top.num * c.den - c.num * top.den;
        let run: int = top.den * c.den;
        lemma_product_bound(rise, slope.den as int, 0x100_0000, 0x1000);
        lemma_product_bound(run, slope.num as int, 0x1000, 0x1000);
    }
    r
}

/// The side of a line: see [`classification_of`].
pub fn classify(line: &PolarLine) -> (side: Classification)
    ensures
        side == classification_of(*line),
{
    if !line.is_wf() {
        return Classification::Unclassified;
    }
    match line_begins_at(line) {
        Err(_) => Classification::Unclassified,
        Ok(p) => {
            let num: i128 = p.x.num;
            let den: i128 = p.x.den;
            proof {
                lemma_frac_order(num as int, den as int, LEFT_BAND_START as int);
                lemma_frac_order(num as int, den as int, BAND_SPLIT as int);
                lemma_frac_order(num as int, den as int, RIGHT_BAND_END as int);
            }
            if (LEFT_BAND_START as i128) * den < num && num < (BAND_SPLIT as i128) * den {
                Classification::Left
            } else if (BAND_SPLIT as i128) * den < num && num < (RIGHT_BAND_END as i128) * den {
                Classification::Right
            } else {
                Classification::Unclassified
            }
        },
    }
}

/// The positions of the left edges and of the right edges among `lines`, each in the order
/// of `lines`.
pub fn split_lines(lines: &Vec<PolarLine>) -> (sides: (Vec<usize>, Vec<usize>))
    ensures
        sides.0@ == indices_on_side(lines@, Classification::Left),
        sides.1@ == indices_on_side(lines@, Classification::Right),
{
    let mut left: Vec<usize> = Vec::new();
    let mut right: Vec<usize> = Vec::new();
    let mut i: usize = 0;
    while i < lines.len()
        invariant
            i <= lines.len(),
            left@ == indices_on_side(lines@.take(i as int), Classification::Left),
            right@ == indices_on_side(lines@.take(i as int), Classification::Right),
        decreases lines.len() - i,
    {
        let side = classify(&lines[i]);
        proof {
            let longer = lines@.take(i + 1);
            assert(longer.drop_last() =~= lines@.take(i as int));
            assert(longer.last() == lines@[i as int]);
        }
        match side {
            Classification::Left => {
                left.push(i);
            },
            Classification::Right => {
                right.push(i);
            },
            Classification::Unclassified => {},
        }
        i += 1;
    }
    proof {
        assert(lines@.take(lines.len() as int) =~= lines@);
    }
    (left, right)
}

/// Every position that [`indices_on_side`] lists is a position of a line on that side, the
/// positions ascend, and no line on that side is left out.
pub proof fn lemma_indices_on_side(lines: Seq<PolarLine>, side: Classification)
    requires
        lines.len() <= usize::MAX,
    ensures
        forall|k: int|
            0 <= k < indices_on_side(lines, side).len() ==> {
                let i = #[trigger] indices_on_side(lines, side)[k];
                i < lines.len() && classification_of(lines[i as int]) == side
            },
        forall|j: int, k: int|
            0 <= j < k < indices_on_side(lines, side).len() ==> indices_on_side(lines, side)[j]
                < indices_on_side(lines, side)[k],
        forall|i: int|
            0 <= i < lines.len() && classification_of(#[trigger] lines[i]) == side ==> indices_on_side(lines, side).contains(i as usize),
    decreases lines.len(),
{
    if lines.len() > 0 {
        let shorter = lines.drop_last();
        let before = indices_on_side(shorter, side);
        let all = indices_on_side(lines, side);
        lemma_indices_on_side(shorter, side);
        assert forall|i: int|
            0 <= i < lines.len() && classification_of(#[trigger] lines[i]) == side implies all.contains(i as usize) by {
            if i < lines.len() - 1 {
                assert(shorter[i] == lines[i]);
                assert(before.contains(i as usize));
                let k = choose|k: int| 0 <= k < before.len() && before[k] == i as usize;
                assert(all[k] == i as usize);
            } else {
                assert(all[all.len() - 1] == i as usize);
            }
        }
    }
}

} // verus!
