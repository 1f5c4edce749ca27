//! What to draw over a frame: each detected line as a stroke from the top row to the bottom
//! row, on the pixel grid.

use crate::classify::{crosses_top_row, top_crossing};
use crate::distance::Point;
use crate::geometry::{point_with_y, Point2D};
use crate::line::PolarLine;
use crate::ratio::{
    is_truncation, lemma_frac_whole, lemma_frac_zero, lemma_negate_both, lemma_truncation,
    truncation, Ratio,
};
use crate::closed_form::lemma_point_on_row;
use vstd::prelude::*;

verus! {

/// The number of rows of a frame; the bottom end of a stroke lies on this row.
pub const FRAME_HEIGHT: i32 = 480;

/// A straight stroke between two points of the pixel grid.
#[derive(Clone, Copy, Debug, PartialEq, Eq, Structural)]
pub struct Segment {
    pub from: Point,
    pub to: Point,
}

/// The column of the pixel in which a line crosses the given row: the abscissa
/// `(rho - row * sin) / cos` of the crossing, rounded toward zero.
pub open spec fn column_on_row(line: PolarLine, row: int) -> int {
    if line.cos > 0 {
        truncation(line.rho - row * line.sin, line.cos as int)
    } else {
        truncation(-(line.rho - row * line.sin), -line.cos)
    }
}

/// The stroke that shows a line: from its crossing of the top row to its crossing of the
/// bottom row. A line that is malformed, vertical or horizontal has none.
pub open spec fn stroke_of(line: PolarLine) -> Option<Segment> {
    if crosses_top_row(line) {
        Some(
            Segment {
                from: Point { x: column_on_row(line, 0) as i32, y: 0 },
                to: Point {
                    x: column_on_row(line, FRAME_HEIGHT as int) as i32,
                    y: FRAME_HEIGHT,
                },
            },
        )
    } else {
        None
    }
}

/// The strokes of the lines of `lines` that have one, in the order of `lines`.
pub open spec fn strokes_of(lines: Seq<PolarLine>) -> Seq<Segment>
    decreases lines.len(),
{
    if lines.len() == 0 {
        Seq::empty()
    } else {
        let before = strokes_of(lines.drop_last());
        match stroke_of(lines.last()) {
            Some(stroke) => before.push(stroke),
            None => before,
        }
    }
}

/// The column that [`column_on_row`] gives is the abscissa of the point of the line on that
/// row, rounded toward zero, and lies within reach of the offsets that a line may have.
pub proof fn lemma_column_on_row(line: PolarLine, row: int)
    requires
        crosses_top_row(line),
        0 <= row <= FRAME_HEIGHT,
    ensures
        is_truncation(
            column_on_row(line, row),
            point_with_y(line.slope(), line.y_intercept(), row as real).0,
        ),
        -0x200_0000 <= column_on_row(line, row) <= 0x200_0000,
{
    let a: int = line.cos as int;
    let b: int = line.sin as int;
    let c: int = line.rho as int;
    let x: int = c - row * b;
    lemma_frac_zero(a, b);
    lemma_point_on_row(a, b, c, row);
    lemma_negate_both(x, a);
    if a > 0 {
        lemma_truncation(x, a);
    } else {
        lemma_truncation(-x, -a);
    }
    assert(-0x1000 * row <= row * b <= 0x1000 * row) by (nonlinear_arith)
        requires
            -0x1000 <= b <= 0x1000,
            0 <= row,
    ;
}

/// The point of a line on the given row, or `None` for a line that is malformed, vertical
/// or horizontal.
pub fn point_on_row(line: &PolarLine, row: i32) -> (r: Option<Point2D>)
    requires
        0 <= row <= FRAME_HEIGHT,
    ensures
        r is Some <==> crosses_top_row(*line),
        r matches Some(p) ==> p.wf() && p@ == point_with_y(
            line.slope(),
            line.y_intercept(),
            row as real,
        ) && p.x.truncate_spec() == column_on_row(*line, row as int) && -0x200_0000
            <= p.x.truncate_spec() <= 0x200_0000,
{
    if !line.is_wf() || line.sin == 0 {
        return None;
    }
    proof {
        lemma_frac_zero(line.cos as int, line.sin as int);
    }
    if line.cos == 0 {
        return None;
    }
    let a: i128 = line.cos as i128;
    let b: i128 = line.sin as i128;
    let c: i128 = line.rho as i128;
    let height: i128 = row as i128;
    proof {
        assert(-0x1000 * height <= height * b <= 0x1000 * height) by (nonlinear_arith)
            requires
                -0x1000 <= b <= 0x1000,
                0 <= height,
        ;
        lemma_point_on_row(a as int, b as int, c as int, height as int);
        lemma_negate_both(c - height * b, a as int);
        lemma_frac_whole(height as int);
        lemma_column_on_row(*line, row as int);
    }
    let x: i128 = c - height * b;
    let abscissa = if a > 0 {
        Ratio { num: x, den: a }
    } else {
        Ratio { num: -x, den: -a }
    };
    Some(Point2D { x: abscissa, y: Ratio { num: height, den: 1 } })
}

/// The stroke that shows a line on the frame: see [`stroke_of`].
pub fn draw_line(line: &PolarLine) -> (r: Option<Segment>)
    ensures
        r == stroke_of(*line),
        r matches Some(stroke) ==> {
            &&& stroke.from.y == 0
            &&& stroke.to.y == FRAME_HEIGHT
            &&& is_truncation(stroke.from.x as int, top_crossing(*line).0)
            &&& is_truncation(
                stroke.to.x as int,
                point_with_y(line.slope(), line.y_intercept(), FRAME_HEIGHT as real).0,
            )
        },
{
    let top = match point_on_row(line, 0) {
        Some(p) => p,
        None => {
            return None;
        },
    };
    let bottom = match point_on_row(line, FRAME_HEIGHT) {
        Some(p) => p,
        None => {
            return None;
        },
    };
    proof {
        lemma_column_on_row(*line, 0);
        lemma_column_on_row(*line, FRAME_HEIGHT as int);
    }
    let from_x: i128 = top.x.truncate();
    let to_x: i128 = bottom.x.truncate();
    Some(
        Segment {
            from: Point { x: from_x as i32, y: 0 },
            to: Point { x: to_x as i32, y: FRAME_HEIGHT },
        },
    )
}

/// The strokes that show the lines of a frame, in the order of `lines`; a line without a
/// stroke is passed over.
pub fn draw_lines(lines: &Vec<PolarLine>) -> (strokes: Vec<Segment>)
    ensures
        strokes@ == strokes_of(lines@),
{
    let mut strokes: Vec<Segment> = Vec::new();
    let mut i: usize = 0;
    while i < lines.len()
        invariant
            i <= lines.len(),
            strokes@ == strokes_of(lines@.take(i as int)),
        decreases lines.len() - i,
    {
        proof {
            let longer = lines@.take(i + 1);
            assert(longer.drop_last() =~= lines@.take(i as int));
            assert(longer.last() == lines@[i as int]);
        }
        match draw_line(&lines[i]) {
            Some(stroke) => {
                strokes.push(stroke);
            },
            None => {},
        }
        i += 1;
    }
    proof {
        assert(lines@.take(lines.len() as int) =~= lines@);
    }
    strokes
}

} // verus!
