use fila_measure::{get_measurement, measure, MeasureError, PolarLine, NANOMETRES_PER_PIXEL};

fn line(rho: i32, cos: i32, sin: i32) -> PolarLine {
    PolarLine::new(rho, cos, sin).unwrap()
}

/// Two edges of one direction that cross the top row at column 100 and `gap` columns to
/// the right of it.
fn parallel_pair(gap: i32, cos: i32, sin: i32) -> Vec<PolarLine> {
    vec![line(100 * cos, cos, sin), line((100 + gap) * cos, cos, sin)]
}

#[test]
fn calibration_is_six_millimetres_over_640_pixels() {
    assert_eq!(NANOMETRES_PER_PIXEL, 9375);
    assert_eq!(640 * NANOMETRES_PER_PIXEL, 6_000_000);
}

#[test]
fn parallel_upright_edges_give_the_calibrated_gap() {
    for gap in [221, 300, 519] {
        for sin in [1, -1] {
            let width = get_measurement(&parallel_pair(gap, 4096, sin));
            let expected = gap as u64 * 9375;
            // the edges lean by one part in 4096, which shortens the gap by less than a
            // nanometre
            assert_eq!(width, expected - 1);
            let millimetres = width as f64 / 1e6;
            assert!((millimetres - gap as f64 * 0.009375).abs() < 2e-6);
        }
    }
}

#[test]
fn width_of_parallel_edges_shrinks_with_the_lean() {
    // the gap across the filament is the gap along the row times the cosine of the lean
    assert_eq!(get_measurement(&parallel_pair(300, 4096, 7)), 2_812_495);
    assert_eq!(get_measurement(&parallel_pair(300, 4096, -64)), 2_812_156);
    assert_eq!(get_measurement(&parallel_pair(300, 4096, 64)), 2_812_156);
    // the scale of the coefficients plays no part
    assert_eq!(get_measurement(&parallel_pair(300, 2048, -32)), 2_812_156);
    assert_eq!(get_measurement(&parallel_pair(300, 64, -1)), 2_812_156);
}

#[test]
fn width_between_edges_that_are_not_parallel() {
    let lines = vec![line(300_000, 4000, -300), line(1_700_000, 4090, 200)];
    assert_eq!(get_measurement(&lines), 2_933_745);
}

#[test]
fn empty_frame_measures_zero() {
    assert_eq!(get_measurement(&Vec::new()), 0);
    assert_eq!(measure(&Vec::new()).err(), Some(MeasureError::NoDetection));
}

#[test]
fn frame_with_only_left_edges_measures_zero() {
    let lines = vec![line(409_600, 4096, 1), line(200, 1, 1), line(319, 1, -1)];
    assert_eq!(get_measurement(&lines), 0);
    assert_eq!(measure(&lines).err(), Some(MeasureError::NoClassifiedPair));
}

#[test]
fn frame_with_only_right_edges_measures_zero() {
    let lines = vec![line(1_638_400, 4096, 1), line(321, 1, 1)];
    assert_eq!(get_measurement(&lines), 0);
    assert_eq!(measure(&lines).err(), Some(MeasureError::NoClassifiedPair));
}

#[test]
fn frame_with_only_unclassified_lines_measures_zero() {
    let lines = vec![line(100, 1, 0), line(400, 1, 0), line(5, 0, 1), line(320, 1, 1)];
    assert_eq!(get_measurement(&lines), 0);
    assert_eq!(measure(&lines).err(), Some(MeasureError::NoClassifiedPair));
}

#[test]
fn vertical_lines_do_not_count_as_edges() {
    // a vertical line at column 100 and one at column 400: neither is an edge
    let lines = vec![line(100, 1, 0), line(400, 1, 0)];
    assert_eq!(get_measurement(&lines), 0);
    // beside a true pair they change nothing
    let mut with_pair = vec![line(100, 1, 0), line(-400, -1, 0)];
    with_pair.extend(parallel_pair(300, 4096, 1));
    assert_eq!(get_measurement(&with_pair), 2_812_499);
    let m = measure(&with_pair).unwrap();
    assert_eq!((m.left, m.right), (2, 3));
}

#[test]
fn edges_at_right_angles_are_degenerate() {
    let lines = vec![line(100, 1, 1), line(400, 1, -1)];
    assert_eq!(measure(&lines).err(), Some(MeasureError::DegenerateGeometry));
    assert_eq!(get_measurement(&lines), 0);
}

#[test]
fn first_edge_of_each_side_is_measured() {
    let lines = vec![
        line(5000, 0, 4096),
        line(409_600, 4096, 1),
        line(1_638_400, 4096, 1),
        line(200 * 2048, 2048, -5),
        line(500, 1, 1),
    ];
    let m = measure(&lines).unwrap();
    assert_eq!((m.left, m.right), (1, 2));
    assert_eq!(m.width, 2_812_499);
    assert_eq!(get_measurement(&lines), 2_812_499);
    // with the right edges in the other order the other one is measured
    let swapped = vec![lines[0], lines[1], lines[4], lines[3], lines[2]];
    let m = measure(&swapped).unwrap();
    assert_eq!((m.left, m.right), (1, 2));
    assert_ne!(m.width, 2_812_499);
}

#[test]
fn measure_reports_the_ends_of_the_gap() {
    let lines = vec![line(300_000, 4000, -300), line(1_700_000, 4090, 200)];
    let m = measure(&lines).unwrap();
    assert_eq!(m.width, 2_933_745);
    assert_eq!((m.left, m.right), (0, 1));
    let from = m.gap.point_left;
    let to = m.gap.point_right;
    assert_eq!(from.x.num, 93 * from.x.den);
    assert_eq!(from.y.num, 240 * from.y.den);
    assert_eq!(to.x.num * 815, 330_121 * to.x.den);
    assert_eq!(to.y.num * 16_300, 3_530_511 * to.y.den);
    assert_eq!(m.gap.distance.nanometres(), m.width);
    let from_pixel = from.to_pixel().unwrap();
    let to_pixel = to.to_pixel().unwrap();
    assert_eq!((from_pixel.x, from_pixel.y), (93, 240));
    assert_eq!((to_pixel.x, to_pixel.y), (405, 216));
}

#[test]
fn measuring_twice_gives_the_same_width() {
    let frames = vec![
        Vec::new(),
        parallel_pair(300, 4096, 1),
        vec![line(300_000, 4000, -300), line(1_700_000, 4090, 200)],
        vec![line(100, 1, 1), line(400, 1, -1)],
    ];
    for lines in frames.iter() {
        let first = get_measurement(lines);
        let second = get_measurement(lines);
        assert_eq!(first, second);
        let copy = lines.clone();
        assert_eq!(get_measurement(&copy), first);
    }
}

#[test]
fn widest_frame_does_not_overflow() {
    // both edges at the limits of every coefficient
    let lines = vec![line(16_777_216, 4096, 4096), line(-16_777_216, -4096, 4096)];
    let m = measure(&lines);
    assert_eq!(m.err(), Some(MeasureError::NoClassifiedPair));
    let far = vec![line(20 * 4096 + 1, 4096, -4096), line(620 * 4096 - 1, 4096, 4095)];
    let m = measure(&far).unwrap();
    assert!(m.gap.distance.is_wf());
    assert_eq!(m.width, get_measurement(&far));
}
