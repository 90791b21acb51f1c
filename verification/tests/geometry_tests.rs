use centroid_solver::frac::Frac;
use centroid_solver::geometry::{Entity, PiLin, Point, Shape};

fn frac(num: i64, den: i64) -> Frac {
    Frac { num, den }
}

fn point(x: i64, y: i64) -> Point {
    Point { x: frac(x, 1), y: frac(y, 1) }
}

fn frac_f64(f: Frac) -> f64 {
    f.num as f64 / f.den as f64
}

fn pilin_f64(p: PiLin) -> f64 {
    frac_f64(p.units) + frac_f64(p.pis) * std::f64::consts::PI
}

#[test]
fn rect_area_is_abs_of_width_times_height() {
    let six = frac(6, 1);
    for (w, h) in [(2i64, 3i64), (-2, 3), (2, -3), (-2, -3)] {
        let e = Entity {
            location: point(7, -4),
            shape: Shape::Rectangle { width: frac(w, 1), height: frac(h, 1) },
            is_gap: false,
        };
        let a = e.area().unwrap();
        assert!(a.units.value_eq(six));
        assert!(a.pis.value_eq(frac(0, 1)));
        assert!(a.units.num >= 0);
    }
}

#[test]
fn rect_centroid_follows_signs() {
    // width -2, height 3 anchored at (0, 0): centroid (-1, 1.5)
    let e = Entity {
        location: point(0, 0),
        shape: Shape::Rectangle { width: frac(-2, 1), height: frac(3, 1) },
        is_gap: false,
    };
    let c = e.centroid().unwrap();
    assert!(c.x.value_eq(frac(-1, 1)));
    assert!(c.y.value_eq(frac(3, 2)));
}

#[test]
fn triangle_area_and_centroid_example() {
    // deltas (4, 0) and (0, 3): area 6, centroid (4/3, 1)
    let e = Entity {
        location: point(0, 0),
        shape: Shape::Triangle { delta2: point(4, 0), delta3: point(0, 3) },
        is_gap: false,
    };
    let a = e.area().unwrap();
    assert!(a.units.value_eq(frac(6, 1)));
    assert!(a.pis.value_eq(frac(0, 1)));
    let c = e.centroid().unwrap();
    assert!(c.x.value_eq(frac(4, 3)));
    assert!(c.y.value_eq(frac(1, 1)));
}

#[test]
fn triangle_area_swap_invariant() {
    let d2 = point(5, -2);
    let d3 = point(-1, 7);
    let one = Entity {
        location: point(3, 3),
        shape: Shape::Triangle { delta2: d2, delta3: d3 },
        is_gap: false,
    };
    let two = Entity {
        location: point(3, 3),
        shape: Shape::Triangle { delta2: d3, delta3: d2 },
        is_gap: false,
    };
    let a1 = one.area().unwrap();
    let a2 = two.area().unwrap();
    assert!(a1.units.value_eq(a2.units));
    assert!(a1.pis.value_eq(a2.pis));
}

#[test]
fn triangle_area_zero_iff_parallel_deltas() {
    let parallel = Entity {
        location: point(0, 0),
        shape: Shape::Triangle { delta2: point(1, 2), delta3: point(2, 4) },
        is_gap: false,
    };
    assert_eq!(parallel.area().unwrap().units.num, 0);
    let not_parallel = Entity {
        location: point(0, 0),
        shape: Shape::Triangle { delta2: point(1, 2), delta3: point(2, 5) },
        is_gap: false,
    };
    assert!(not_parallel.area().unwrap().units.num > 0);
}

#[test]
fn circle_area_and_centroid() {
    // diameter 2: area pi * 1^2, centroid is the centre
    let e = Entity {
        location: point(4, -9),
        shape: Shape::Circle { diameter: frac(2, 1) },
        is_gap: true,
    };
    let a = e.area().unwrap();
    assert!(a.units.value_eq(frac(0, 1)));
    assert!(a.pis.value_eq(frac(1, 1)));
    let approx = pilin_f64(a);
    assert!((approx - std::f64::consts::PI).abs() < 1e-12);
    let c = e.centroid().unwrap();
    assert!(c.x.value_eq(frac(4, 1)));
    assert!(c.y.value_eq(frac(-9, 1)));
}

#[test]
fn fractional_dimensions_stay_exact() {
    // a 2.5 by 0.4 rectangle has area exactly 1
    let e = Entity {
        location: point(0, 0),
        shape: Shape::Rectangle { width: frac(25, 10), height: frac(4, 10) },
        is_gap: false,
    };
    let a = e.area().unwrap();
    assert!(a.units.value_eq(frac(1, 1)));
}

#[test]
fn area_reports_overflow_as_none() {
    let e = Entity {
        location: point(0, 0),
        shape: Shape::Rectangle { width: frac(i64::MAX, 1), height: frac(3, 1) },
        is_gap: false,
    };
    assert!(e.area().is_none());
}
