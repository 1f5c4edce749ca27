use fila_measure::{
    euclidean_distance, get_intersection_point, get_normal, get_point_with_y, get_slope,
    get_y_intercept, isqrt, line_begins_at, solve_gap, PixelDistance, Point, Point2D, PolarLine,
    Ratio,
};

fn line(rho: i32, cos: i32, sin: i32) -> PolarLine {
    PolarLine::new(rho, cos, sin).unwrap()
}

fn ratio(num: i128, den: i128) -> Ratio {
    Ratio::new(num, den).unwrap()
}

fn is_value(r: &Ratio, num: i128, den: i128) -> bool {
    r.den > 0 && den != 0 && r.num * den == num * r.den
}

#[test]
fn polar_line_new_accepts_the_whole_range() {
    assert!(PolarLine::new(16_777_216, 4096, -4096).is_some());
    assert!(PolarLine::new(-16_777_216, -4096, 4096).is_some());
    assert!(PolarLine::new(0, 0, 1).is_some());
    assert_eq!(
        PolarLine::new(5, 3, 4),
        Some(PolarLine { rho: 5, cos: 3, sin: 4 })
    );
}

#[test]
fn polar_line_new_rejects_what_is_out_of_range() {
    assert!(PolarLine::new(16_777_217, 1, 1).is_none());
    assert!(PolarLine::new(-16_777_217, 1, 1).is_none());
    assert!(PolarLine::new(0, 4097, 1).is_none());
    assert!(PolarLine::new(0, 1, -4097).is_none());
    assert!(PolarLine::new(10, 0, 0).is_none());
    assert!(!PolarLine { rho: 10, cos: 0, sin: 0 }.is_wf());
}

#[test]
fn ratio_new_moves_the_sign_into_the_numerator() {
    let r = ratio(3, -4);
    assert_eq!((r.num, r.den), (-3, 4));
    let r = ratio(-3, -4);
    assert_eq!((r.num, r.den), (3, 4));
    let r = ratio(6, 8);
    assert_eq!((r.num, r.den), (6, 8));
    assert!(Ratio::new(1, 0).is_none());
    assert!(Ratio::new(i128::MIN, 1).is_none());
    assert!(Ratio::new(1, i128::MIN).is_none());
}

#[test]
fn ratio_from_int_is_over_one() {
    let r = Ratio::from_int(-240);
    assert_eq!((r.num, r.den), (-240, 1));
}

#[test]
fn ratio_is_zero_looks_at_the_numerator() {
    assert!(ratio(0, 7).is_zero());
    assert!(!ratio(1, 7).is_zero());
    assert!(!ratio(-1, 7).is_zero());
}

#[test]
fn ratio_truncate_rounds_toward_zero() {
    assert_eq!(ratio(7, 2).truncate(), 3);
    assert_eq!(ratio(-7, 2).truncate(), -3);
    assert_eq!(ratio(6, 2).truncate(), 3);
    assert_eq!(ratio(-1, 2).truncate(), 0);
    assert_eq!(ratio(0, 5).truncate(), 0);
}

#[test]
fn ratio_is_within_checks_both_parts() {
    assert!(ratio(-5, 5).is_within(5));
    assert!(!ratio(-6, 5).is_within(5));
    assert!(!ratio(1, 6).is_within(5));
    assert!(!Ratio { num: 1, den: 0 }.is_within(5));
    assert!(!ratio(0, 1).is_within(-1));
}

#[test]
fn slope_is_minus_cos_over_sin() {
    let s = get_slope(&line(1000, 3, 4)).unwrap();
    assert_eq!((s.num, s.den), (-3, 4));
    let s = get_slope(&line(1000, 3, -4)).unwrap();
    assert_eq!((s.num, s.den), (3, 4));
    let s = get_slope(&line(1000, 0, 1)).unwrap();
    assert!(s.is_zero());
}

#[test]
fn y_intercept_is_rho_over_sin() {
    let c = get_y_intercept(&line(1000, 3, 4)).unwrap();
    assert_eq!((c.num, c.den), (1000, 4));
    let c = get_y_intercept(&line(1000, 3, -4)).unwrap();
    assert_eq!((c.num, c.den), (-1000, 4));
}

#[test]
fn vertical_line_has_no_slope_and_no_intercept() {
    assert!(get_slope(&line(100, 1, 0)).is_err());
    assert!(get_y_intercept(&line(100, 1, 0)).is_err());
    assert!(get_slope(&line(100, -4096, 0)).is_err());
    assert!(get_y_intercept(&line(100, -4096, 0)).is_err());
}

#[test]
fn point_with_y_divides_by_the_slope() {
    let p = get_point_with_y(&ratio(-3, 4), &ratio(250, 1), &ratio(7, 1)).unwrap();
    assert!(is_value(&p.x, 324, 1));
    assert!(is_value(&p.y, 7, 1));
    let p = get_point_with_y(&ratio(1, 2), &ratio(1, 3), &ratio(5, 6)).unwrap();
    assert!(is_value(&p.x, 1, 1));
    assert!(is_value(&p.y, 5, 6));
}

#[test]
fn point_with_y_of_a_flat_line_is_degenerate() {
    assert!(get_point_with_y(&ratio(0, 4), &ratio(250, 1), &ratio(7, 1)).is_err());
}

#[test]
fn point_from_slope_and_intercept_lies_on_the_line() {
    let lines = [
        line(1000, 3, 4),
        line(-77, -5, 12),
        line(409_600, 4096, 1),
        line(16_777_216, -4096, -4095),
    ];
    let heights = [ratio(7, 1), ratio(0, 1), ratio(-481, 3), ratio(240, 1)];
    for l in lines.iter() {
        let slope = get_slope(l).unwrap();
        let c = get_y_intercept(l).unwrap();
        for y in heights.iter() {
            let p = get_point_with_y(&slope, &c, y).unwrap();
            // x * cos + y * sin == rho, cleared of both denominators
            let left = p.x.num * (l.cos as i128) * p.y.den + p.y.num * (l.sin as i128) * p.x.den;
            let right = (l.rho as i128) * p.x.den * p.y.den;
            assert_eq!(left, right);
        }
    }
}

#[test]
fn normal_has_the_negative_reciprocal_slope() {
    let edge_c = ratio(11, 1);
    let (slope, c) = get_normal(&ratio(2, 1), &ratio(5, 1), &ratio(3, 7), &edge_c).unwrap();
    assert!(is_value(&slope, -7, 3));
    assert!(is_value(&c, 29, 3));
    let (slope, c) = get_normal(&ratio(2, 1), &ratio(5, 1), &ratio(-3, 7), &edge_c).unwrap();
    assert!(is_value(&slope, 7, 3));
    assert!(is_value(&c, 1, 3));
}

#[test]
fn normal_of_a_flat_edge_is_degenerate() {
    assert!(get_normal(&ratio(2, 1), &ratio(5, 1), &ratio(0, 1), &ratio(5, 1)).is_err());
}

#[test]
fn intersection_point_of_two_lines() {
    let p = get_intersection_point(&ratio(1, 2), &ratio(1, 1), &ratio(-3, 1), &ratio(8, 1))
        .unwrap();
    assert!(is_value(&p.x, 2, 1));
    assert!(is_value(&p.y, 2, 1));
    let p = get_intersection_point(&ratio(-3, 1), &ratio(8, 1), &ratio(1, 2), &ratio(1, 1))
        .unwrap();
    assert!(is_value(&p.x, 2, 1));
    assert!(is_value(&p.y, 2, 1));
}

#[test]
fn intersection_of_parallel_lines_is_degenerate() {
    assert!(
        get_intersection_point(&ratio(1, 2), &ratio(1, 1), &ratio(2, 4), &ratio(8, 1)).is_err()
    );
}

#[test]
fn line_begins_where_it_crosses_the_top_row() {
    let p = line_begins_at(&line(409_600, 4096, 1)).unwrap();
    assert!(is_value(&p.x, 100, 1));
    assert!(is_value(&p.y, 0, 1));
    let p = line_begins_at(&line(-5, 2, -1)).unwrap();
    assert!(is_value(&p.x, -5, 2));
    assert!(line_begins_at(&line(5, 1, 0)).is_err());
    assert!(line_begins_at(&line(5, 0, 1)).is_err());
}

#[test]
fn euclidean_distance_three_four_five() {
    let d = euclidean_distance(&Point { x: 1, y: 2 }, &Point { x: 4, y: -2 });
    assert_eq!((d.square_num, d.square_den), (25, 1));
    assert_eq!(d.nanometres(), 5 * 9375);
    let d = euclidean_distance(&Point { x: 4, y: -2 }, &Point { x: 1, y: 2 });
    assert_eq!((d.square_num, d.square_den), (25, 1));
}

#[test]
fn euclidean_distance_of_a_point_to_itself_is_zero() {
    let p = Point { x: -7, y: 9 };
    let d = euclidean_distance(&p, &p);
    assert_eq!(d.square_num, 0);
    assert_eq!(d.nanometres(), 0);
}

#[test]
fn euclidean_distance_across_the_whole_grid() {
    let d = euclidean_distance(
        &Point { x: i32::MIN, y: i32::MIN },
        &Point { x: i32::MAX, y: i32::MAX },
    );
    let side: u128 = u32::MAX as u128;
    assert_eq!(d.square_num, 2 * side * side);
    assert!(d.is_wf());
    // 9375 * sqrt(2) * (2^32 - 1), rounded down
    assert_eq!(d.nanometres(), 56_943_759_361_292);
}

#[test]
fn nanometres_rounds_down() {
    // sqrt(2) pixels are 13258.25... nanometres
    let d = PixelDistance { square_num: 2, square_den: 1 };
    assert_eq!(d.nanometres(), 13_258);
    // a third of a pixel is 3125 nanometres exactly
    let d = PixelDistance { square_num: 1, square_den: 9 };
    assert_eq!(d.nanometres(), 3125);
    // just under one pixel
    let d = PixelDistance { square_num: 999_999, square_den: 1_000_000 };
    assert_eq!(d.nanometres(), 9374);
}

#[test]
fn pixel_distance_is_wf_checks_the_limit() {
    let limit: u128 = 1 << 101;
    assert!(PixelDistance { square_num: limit, square_den: 1 }.is_wf());
    assert!(!PixelDistance { square_num: limit + 1, square_den: 1 }.is_wf());
    assert!(!PixelDistance { square_num: 1, square_den: 0 }.is_wf());
    assert_eq!(
        PixelDistance { square_num: limit, square_den: 1 }.nanometres(),
        14_927_464_857_482_279_448
    );
}

#[test]
fn isqrt_values() {
    assert_eq!(isqrt(0), 0);
    assert_eq!(isqrt(1), 1);
    assert_eq!(isqrt(2), 1);
    assert_eq!(isqrt(3), 1);
    assert_eq!(isqrt(4), 2);
    assert_eq!(isqrt(15), 3);
    assert_eq!(isqrt(16), 4);
    assert_eq!(isqrt(17), 4);
    assert_eq!(isqrt(87_890_625), 9375);
    assert_eq!(isqrt(u128::MAX), u64::MAX);
    let big: u128 = (u64::MAX as u128) * (u64::MAX as u128);
    assert_eq!(isqrt(big), u64::MAX);
    assert_eq!(isqrt(big - 1), u64::MAX - 1);
}

#[test]
fn solve_gap_follows_the_construction() {
    // left: 2x + y = 8, right: 3x - y = 40
    let g = solve_gap(&line(8, 2, 1), &line(40, 3, -1)).unwrap();
    assert!(is_value(&g.point_left.x, -116, 1));
    assert!(is_value(&g.point_left.y, 240, 1));
    assert!(is_value(&g.point_right.x, 676, 5));
    assert!(is_value(&g.point_right.y, 1828, 5));
    // the squared distance is 7887680 / 100
    assert_eq!(g.distance.square_num * 100, 7_887_680 * g.distance.square_den);
    // the right end lies on the right edge
    let x = g.point_right.x;
    let y = g.point_right.y;
    assert_eq!(3 * x.num * y.den - y.num * x.den, 40 * x.den * y.den);
}

#[test]
fn solve_gap_agrees_with_the_step_by_step_construction() {
    let left = line(300_000, 4000, -300);
    let right = line(1_700_000, 4090, 200);
    let g = solve_gap(&left, &right).unwrap();
    let slope_left = get_slope(&left).unwrap();
    let c_left = get_y_intercept(&left).unwrap();
    let from = get_point_with_y(&slope_left, &c_left, &Ratio::from_int(240)).unwrap();
    assert!(is_value(&g.point_left.x, from.x.num, from.x.den));
    assert!(is_value(&g.point_left.x, 93, 1));
    assert!(is_value(&g.point_right.x, 330_121, 815));
    assert!(is_value(&g.point_right.y, 3_530_511, 16_300));
}

#[test]
fn solve_gap_is_degenerate_where_a_step_has_no_answer() {
    // the left edge is vertical
    assert!(solve_gap(&line(100, 1, 0), &line(400, 4096, 1)).is_err());
    // the left edge is horizontal
    assert!(solve_gap(&line(100, 0, 1), &line(400, 4096, 1)).is_err());
    // the right edge is vertical
    assert!(solve_gap(&line(100, 4096, 1), &line(400, 1, 0)).is_err());
    // the two edges are at right angles
    assert!(solve_gap(&line(100, 1, 1), &line(400, 1, -1)).is_err());
    // a horizontal right edge is no obstacle
    assert!(solve_gap(&line(100, 1, 1), &line(400, 0, 1)).is_ok());
}

#[test]
fn point_to_pixel_rounds_toward_zero() {
    let p = Point2D { x: ratio(7, 2), y: ratio(-7, 2) };
    assert_eq!(p.to_pixel(), Some(Point { x: 3, y: -3 }));
    let p = Point2D { x: ratio(i32::MAX as i128, 1), y: ratio(i32::MIN as i128, 1) };
    assert_eq!(p.to_pixel(), Some(Point { x: i32::MAX, y: i32::MIN }));
}

#[test]
fn point_to_pixel_of_a_malformed_point_is_none() {
    let p = Point2D { x: Ratio { num: 1, den: 0 }, y: ratio(0, 1) };
    assert_eq!(p.to_pixel(), None);
    let p = Point2D { x: ratio(0, 1), y: Ratio { num: 1, den: -1 } };
    assert_eq!(p.to_pixel(), None);
}

#[test]
fn point_to_pixel_off_the_grid_is_none() {
    let p = Point2D { x: ratio(i32::MAX as i128 + 1, 1), y: ratio(0, 1) };
    assert_eq!(p.to_pixel(), None);
    let p = Point2D { x: ratio(0, 1), y: ratio(i32::MIN as i128 - 1, 1) };
    assert_eq!(p.to_pixel(), None);
}
