//! The width of the filament in one frame.

use crate::classify::{indices_on_side, lemma_indices_on_side, split_lines, Classification};
use crate::distance::{is_scaled_root, lemma_scaled_root_unique, NANOMETRES_PER_PIXEL};
use crate::line::PolarLine;
use crate::solver::{gap_defined, gap_squared, point_left, point_right, solve_gap, Gap};
use vstd::prelude::*;

verus! {

/// Why a frame has no width.
#[derive(Clone, Copy, Debug, PartialEq, Eq, Structural)]
pub enum MeasureError {
    /// The frame has no lines at all.
    NoDetection,
    /// The frame has lines, but no left edge or no right edge among them.
    NoClassifiedPair,
    /// The frame has a left and a right edge, but the gap between the first of each has
    /// no answer.
    DegenerateGeometry,
}

/// The width of the filament in one frame, and how it was found.
#[derive(Clone, Copy, Debug)]
pub struct Measurement {
    /// The width in nanometres, rounded down.
    pub width: u64,
    /// The position of the left edge among the lines of the frame.
    pub left: usize,
    /// The position of the right edge among the lines of the frame.
    pub right: usize,
    /// The end points of the measured segment and the distance between them, in pixels.
    pub gap: Gap,
}

/// The positions of the two edges that are measured: the first left edge and the first
/// right edge, in the order of `lines`. `None` where one side has no line.
pub open spec fn chosen_pair(lines: Seq<PolarLine>) -> Option<(usize, usize)> {
    let left = indices_on_side(lines, Classification::Left);
    let right = indices_on_side(lines, Classification::Right);
    if left.len() > 0 && right.len() > 0 {
        Some((left[0], right[0]))
    } else {
        None
    }
}

/// `scale` times the square root of `square`, rounded down to a whole number.
pub open spec fn scaled_root(scale: int, square: real) -> int {
    choose|n: int| is_scaled_root(n, scale, square)
}

/// The width of the filament in nanometres that the lines of a frame give: the gap between
/// the chosen pair of edges in pixels, times [`NANOMETRES_PER_PIXEL`], rounded down; and zero
/// where no pair is chosen or its gap has no answer.
pub open spec fn width_of(lines: Seq<PolarLine>) -> int {
    match chosen_pair(lines) {
        Some((i, j)) => if gap_defined(lines[i as int], lines[j as int]) {
            scaled_root(
                NANOMETRES_PER_PIXEL as int,
                gap_squared(lines[i as int], lines[j as int]),
            )
        } else {
            0
        },
        None => 0,
    }
}

/// A whole number that is the rounded-down scaled root of a square is the one that
/// [`scaled_root`] names.
pub proof fn lemma_scaled_root_is(n: int, scale: int, square: real)
    requires
        is_scaled_root(n, scale, square),
    ensures
        scaled_root(scale, square) == n,
{
    lemma_scaled_root_unique(scaled_root(scale, square), n, scale, square);
}

/// Measures the width of the filament from the lines detected in one frame: the lines are
/// split into left and right edges, and the gap between the first of each is solved and
/// turned into nanometres.
pub fn measure(lines: &Vec<PolarLine>) -> (r: Result<Measurement, MeasureError>)
    ensures
        r matches Err(MeasureError::NoDetection) <==> lines@.len() == 0,
        r matches Err(MeasureError::NoClassifiedPair) <==> lines@.len() > 0 && chosen_pair(
            lines@,
        ) is None,
        r matches Err(MeasureError::DegenerateGeometry) <==> (chosen_pair(lines@) matches Some(
            (i, j),
        ) && !gap_defined(lines@[i as int], lines@[j as int])),
        r matches Ok(m) ==> {
            &&& chosen_pair(lines@) == Some((m.left, m.right))
            &&& m.left < lines@.len()
            &&& m.right < lines@.len()
            &&& gap_defined(lines@[m.left as int], lines@[m.right as int])
            &&& m.gap.point_left.wf()
            &&& m.gap.point_right.wf()
            &&& m.gap.distance.wf()
            &&& m.gap.point_left@ == point_left(lines@[m.left as int])
            &&& m.gap.point_right@ == point_right(
                lines@[m.left as int],
                lines@[m.right as int],
            )
            &&& m.gap.distance.squared() == gap_squared(
                lines@[m.left as int],
                lines@[m.right as int],
            )
            &&& is_scaled_root(
                m.width as int,
                NANOMETRES_PER_PIXEL as int,
                gap_squared(lines@[m.left as int], lines@[m.right as int]),
            )
            &&& m.width == width_of(lines@)
        },
{
    if lines.len() == 0 {
        return Err(MeasureError::NoDetection);
    }
    let (left, right) = split_lines(lines);
    if left.len() == 0 || right.len() == 0 {
        return Err(MeasureError::NoClassifiedPair);
    }
    let i: usize = left[0];
    let j: usize = right[0];
    proof {
        lemma_indices_on_side(lines@, Classification::Left);
        lemma_indices_on_side(lines@, Classification::Right);
        assert(i == indices_on_side(lines@, Classification::Left)[0]);
        assert(j == indices_on_side(lines@, Classification::Right)[0]);
    }
    match solve_gap(&lines[i], &lines[j]) {
        Err(_) => Err(MeasureError::DegenerateGeometry),
        Ok(gap) => {
            let width: u64 = gap.distance.nanometres();
            proof {
                lemma_scaled_root_is(
                    width as int,
                    NANOMETRES_PER_PIXEL as int,
                    gap_squared(lines@[i as int], lines@[j as int]),
                );
            }
            Ok(Measurement { width, left: i, right: j, gap })
        },
    }
}

/// The width of the filament in nanometres from the lines detected in one frame, or zero
/// where the frame gives none: see [`width_of`].
pub fn get_measurement(lines: &Vec<PolarLine>) -> (width: u64)
    ensures
        width == width_of(lines@),
{
    match measure(lines) {
        Ok(m) => m.width,
        Err(_) => 0,
    }
}

} // verus!
