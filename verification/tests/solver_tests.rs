use centroid_solver::frac::Frac;
use centroid_solver::geometry::PiLin;
use centroid_solver::parser::parse_add;
use centroid_solver::solver::{precision_for_digits, Store};

fn frac(num: i64, den: i64) -> Frac {
    Frac { num, den }
}

fn frac_f64(f: Frac) -> f64 {
    f.num as f64 / f.den as f64
}

fn pilin_f64(p: PiLin) -> f64 {
    frac_f64(p.units) + frac_f64(p.pis) * std::f64::consts::PI
}

#[test]
fn empty_store_solves_to_zero_totals() {
    let store = Store::new();
    assert!(store.is_empty());
    let report = store.solve().unwrap();
    assert_eq!(report.rows.len(), 0);
    assert!(report.totals.area.units.value_eq(frac(0, 1)));
    assert!(report.totals.area.pis.value_eq(frac(0, 1)));
    assert!(report.totals.x_moment.units.value_eq(frac(0, 1)));
    assert!(report.totals.y_moment.units.value_eq(frac(0, 1)));
    // dividing the zero moments by the zero area is the caller's
    // degenerate NaN centroid
    let x = pilin_f64(report.totals.x_moment) / pilin_f64(report.totals.area);
    assert!(x.is_nan());
}

#[test]
fn circle_minus_unit_square_composite() {
    // solid circle of diameter 2 at the origin, unit-square gap at the
    // origin: total area pi - 1, centroid about (-0.2334, -0.2334)
    let mut store = Store::new();
    store.append(parse_add("+ circle (0,0) 2").unwrap());
    store.append(parse_add("- quad (0,0) 1 1").unwrap());
    let report = store.solve().unwrap();
    assert_eq!(report.rows.len(), 2);

    // exact totals: area = pi - 1, each moment = -1/2
    assert!(report.totals.area.units.value_eq(frac(-1, 1)));
    assert!(report.totals.area.pis.value_eq(frac(1, 1)));
    assert!(report.totals.x_moment.units.value_eq(frac(-1, 2)));
    assert!(report.totals.x_moment.pis.value_eq(frac(0, 1)));
    assert!(report.totals.y_moment.units.value_eq(frac(-1, 2)));

    let area = pilin_f64(report.totals.area);
    assert!((area - 2.1416).abs() < 1e-4);
    let cx = pilin_f64(report.totals.x_moment) / area;
    let cy = pilin_f64(report.totals.y_moment) / area;
    assert!((cx - (-0.2334)).abs() < 1e-4);
    assert!((cy - (-0.2334)).abs() < 1e-4);

    // per-row data: the square's centroid is (0.5, 0.5) and its moments
    // are 0.5 each (the gap sign lives in the totals, not the row)
    let square = &report.rows[1];
    assert!(square.area.units.value_eq(frac(1, 1)));
    assert!(square.centroid.x.value_eq(frac(1, 2)));
    assert!(square.x_moment.units.value_eq(frac(1, 2)));
}

#[test]
fn triangle_row_example() {
    let mut store = Store::new();
    store.append(parse_add("+ tri (0,0) (4, 0) (0, 3)").unwrap());
    let report = store.solve().unwrap();
    let row = &report.rows[0];
    assert!(row.area.units.value_eq(frac(6, 1)));
    assert!(row.centroid.x.value_eq(frac(4, 3)));
    assert!(row.centroid.y.value_eq(frac(1, 1)));
    // moments: (4/3) * 6 = 8 and 1 * 6 = 6
    assert!(row.x_moment.units.value_eq(frac(8, 1)));
    assert!(row.y_moment.units.value_eq(frac(6, 1)));
    assert!(report.totals.area.units.value_eq(frac(6, 1)));
}

#[test]
fn solving_is_a_signed_sum() {
    // two solids and one gap: 12 + 6 - 4 = 14
    let mut store = Store::new();
    store.append(parse_add("+ quad (0,0) 3 4").unwrap());
    store.append(parse_add("+ quad (10,10) 2 3").unwrap());
    store.append(parse_add("- quad (1,1) 2 2").unwrap());
    let report = store.solve().unwrap();
    assert!(report.totals.area.units.value_eq(frac(14, 1)));
}

#[test]
fn removal_past_the_length_changes_nothing() {
    let mut store = Store::new();
    store.append(parse_add("+ quad (0,0) 1 1").unwrap());
    store.append(parse_add("- circle (2,2) 1").unwrap());
    let before = store.list().clone();
    assert!(store.remove(2).is_err());
    assert!(store.remove(usize::MAX).is_err());
    assert_eq!(store.list(), &before);
    assert_eq!(store.len(), 2);
}

#[test]
fn removal_shifts_later_indices_down() {
    let mut store = Store::new();
    let first = parse_add("+ quad (0,0) 1 1").unwrap();
    let second = parse_add("- circle (2,2) 1").unwrap();
    store.append(first);
    store.append(second);
    let removed = store.remove(0).unwrap();
    assert_eq!(removed, first);
    assert_eq!(store.len(), 1);
    assert_eq!(store.list()[0], second);
}

#[test]
fn failed_parse_leaves_the_store_unchanged() {
    let mut store = Store::new();
    store.append(parse_add("+ quad (0,0) 1 1").unwrap());
    let before = store.list().clone();
    assert!(parse_add("circle (1,2) 4").is_err());
    assert_eq!(store.list(), &before);
}

#[test]
fn centroid_ratios_are_the_moment_over_area_pairs() {
    let mut store = Store::new();
    store.append(parse_add("+ quad (0,0) 4 2").unwrap());
    let report = store.solve().unwrap();
    let ((xn, xd), (yn, yd)) = report.centroid_ratios();
    // centroid (2, 1): moments 16 and 8 over area 8
    assert!(xn.units.value_eq(frac(16, 1)));
    assert!(yn.units.value_eq(frac(8, 1)));
    assert!(xd.units.value_eq(frac(8, 1)));
    assert!(yd.units.value_eq(frac(8, 1)));
    assert!((pilin_f64(xn) / pilin_f64(xd) - 2.0).abs() < 1e-12);
    assert!((pilin_f64(yn) / pilin_f64(yd) - 1.0).abs() < 1e-12);
}

#[test]
fn area_column_precision_fills_ten_characters() {
    // precision = clamp(10 - digits - 1, 0, 3)
    assert_eq!(precision_for_digits(1), 3);
    assert_eq!(precision_for_digits(6), 3);
    assert_eq!(precision_for_digits(7), 2);
    assert_eq!(precision_for_digits(8), 1);
    assert_eq!(precision_for_digits(9), 0);
    assert_eq!(precision_for_digits(12), 0);
}

#[test]
fn overflow_in_the_sum_is_reported_not_mangled() {
    let mut store = Store::new();
    store.append(parse_add("+ quad (0,0) 3000000000 3000000000").unwrap());
    assert!(store.solve().is_none());
}
