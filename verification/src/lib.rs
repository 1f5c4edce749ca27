//! Width of a filament from the straight edges detected in one video frame.
//!
//! Lines arrive in polar form with whole-number coefficients. They are sorted into left and
//! right edges by where they cross the top row of the image, the gap between the first of
//! each is taken across the filament at the scan row, and the gap in pixels is turned into
//! nanometres. All geometry is carried out in exact rational arithmetic and is specified
//! over the real numbers, so no rounding enters before the last step.

pub mod classify;
pub mod closed_form;
pub mod distance;
pub mod geometry;
pub mod laws;
pub mod line;
pub mod measure;
pub mod overlay;
pub mod ratio;
pub mod reals;
pub mod solver;

pub use classify::{classify, line_begins_at, split_lines, Classification};
pub use distance::{euclidean_distance, isqrt, PixelDistance, Point, NANOMETRES_PER_PIXEL};
pub use geometry::{get_intersection_point, get_normal, get_point_with_y, Point2D};
pub use line::{get_slope, get_y_intercept, DegenerateGeometry, PolarLine};
pub use measure::{get_measurement, measure, MeasureError, Measurement};
pub use overlay::{draw_line, draw_lines, point_on_row, Segment};
pub use ratio::Ratio;
pub use solver::{solve_gap, Gap};
