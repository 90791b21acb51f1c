use centroid_solver::frac::Frac;
use centroid_solver::geometry::Shape;
use centroid_solver::parser::{parse_add, Addfn, ParseError};

fn frac(num: i64, den: i64) -> Frac {
    Frac { num, den }
}

#[test]
fn parse_circle_example() {
    let e = parse_add("+ circle (1, 2) 4").unwrap();
    assert!(!e.is_gap);
    assert!(e.location.x.value_eq(frac(1, 1)));
    assert!(e.location.y.value_eq(frac(2, 1)));
    match e.shape {
        Shape::Circle { diameter } => assert!(diameter.value_eq(frac(4, 1))),
        _ => panic!("expected a circle"),
    }
    // area pi * (4/2)^2 = 4 pi, about 12.566
    let a = e.area().unwrap();
    assert!(a.pis.value_eq(frac(4, 1)));
    let approx = a.pis.num as f64 / a.pis.den as f64 * std::f64::consts::PI;
    assert!((approx - 12.566).abs() < 1e-3);
}

#[test]
fn parse_quad_example() {
    let e = parse_add("+ quad (0,0) -2 3").unwrap();
    assert!(!e.is_gap);
    match e.shape {
        Shape::Rectangle { width, height } => {
            assert!(width.value_eq(frac(-2, 1)));
            assert!(height.value_eq(frac(3, 1)));
        },
        _ => panic!("expected a rectangle"),
    }
    let a = e.area().unwrap();
    assert!(a.units.value_eq(frac(6, 1)));
    let c = e.centroid().unwrap();
    assert!(c.x.value_eq(frac(-1, 1)));
    assert!(c.y.value_eq(frac(3, 2)));
}

#[test]
fn parse_tri() {
    let e = parse_add("- tri (1,1) (4, 0) (0, 3)").unwrap();
    assert!(e.is_gap);
    match e.shape {
        Shape::Triangle { delta2, delta3 } => {
            assert!(delta2.x.value_eq(frac(4, 1)));
            assert!(delta2.y.value_eq(frac(0, 1)));
            assert!(delta3.x.value_eq(frac(0, 1)));
            assert!(delta3.y.value_eq(frac(3, 1)));
        },
        _ => panic!("expected a triangle"),
    }
}

#[test]
fn missing_sign_is_reported() {
    let e = parse_add("circle (1,2) 4").unwrap_err();
    assert_eq!(e, ParseError::NoSign);
    assert_eq!(e.message(), "no sign");
}

#[test]
fn unknown_shape_is_reported() {
    let e = parse_add("+ blob (1,2) 4").unwrap_err();
    assert_eq!(e, ParseError::UnknownShape);
    assert_eq!(e.message(), "what shape?");
}

#[test]
fn missing_open_paren_is_reported() {
    let e = parse_add("+ circle 1 2 4").unwrap_err();
    assert_eq!(e, ParseError::ExpectedPoint);
    assert_eq!(e.message(), "expected point '('");
}

#[test]
fn bad_x_is_reported() {
    let e = parse_add("+ circle (x, 2) 4").unwrap_err();
    assert_eq!(e, ParseError::XNotANumber);
    assert_eq!(e.message(), "X is not a number");
}

#[test]
fn bad_y_is_reported() {
    let e = parse_add("+ circle (1, y) 4").unwrap_err();
    assert_eq!(e, ParseError::YNotANumber);
    assert_eq!(e.message(), "Y is not a number");
}

#[test]
fn missing_close_paren_is_reported() {
    let e = parse_add("+ circle (1, 2 4").unwrap_err();
    assert_eq!(e, ParseError::ClosePoint);
    assert_eq!(e.message(), "close point pls");
}

#[test]
fn bad_diameter_is_reported() {
    let e = parse_add("+ circle (1,2) x").unwrap_err();
    assert_eq!(e, ParseError::DiameterNotANumber);
    assert_eq!(e.message(), "diameter is not a num");
}

#[test]
fn circle_rejects_trailing_text_after_diameter() {
    // the diameter is a strict whole-token parse of the remainder
    let e = parse_add("+ circle (1,2) 4 junk").unwrap_err();
    assert_eq!(e, ParseError::DiameterNotANumber);
    // trailing whitespace alone is fine
    assert!(parse_add("+ circle (1,2) 4   ").is_ok());
}

#[test]
fn quad_ignores_trailing_text() {
    let e = parse_add("+ quad (0,0) 2 3 junk").unwrap();
    match e.shape {
        Shape::Rectangle { width, height } => {
            assert!(width.value_eq(frac(2, 1)));
            assert!(height.value_eq(frac(3, 1)));
        },
        _ => panic!("expected a rectangle"),
    }
}

#[test]
fn bad_width_and_height_are_reported() {
    let e = parse_add("+ quad (0,0) x 3").unwrap_err();
    assert_eq!(e, ParseError::WidthNotANumber);
    assert_eq!(e.message(), "width is not a num");
    let e = parse_add("+ quad (0,0) 2 y").unwrap_err();
    assert_eq!(e, ParseError::HeightNotANumber);
    assert_eq!(e.message(), "height is not a num");
}

#[test]
fn comma_between_coordinates_is_optional() {
    let e = parse_add("+ quad (0 0) 2 3").unwrap();
    assert!(e.location.x.value_eq(frac(0, 1)));
    assert!(e.location.y.value_eq(frac(0, 1)));
}

#[test]
fn decimals_parse_exactly() {
    let e = parse_add("+ circle (0.5, -1.25) 2.5").unwrap();
    assert!(e.location.x.value_eq(frac(1, 2)));
    assert!(e.location.y.value_eq(frac(-5, 4)));
    match e.shape {
        Shape::Circle { diameter } => {
            assert_eq!(diameter.num, 25);
            assert_eq!(diameter.den, 10);
        },
        _ => panic!("expected a circle"),
    }
}

#[test]
fn sign_must_touch_the_digits() {
    // '-5' is a negative number, but '- 5' is not a number at all
    let e = parse_add("+ circle (-5, 0) 10").unwrap();
    assert!(e.location.x.value_eq(frac(-5, 1)));
    let e = parse_add("+ circle (- 5, 0) 10").unwrap_err();
    assert_eq!(e, ParseError::XNotANumber);
}

#[test]
fn keyword_match_is_prefix_based() {
    // "triangle" chews the "tri" prefix; "angle" is then not a point
    let e = parse_add("+ triangle (0,0) (1,0) (0,1)").unwrap_err();
    assert_eq!(e, ParseError::ExpectedPoint);
    // no whitespace is needed around tokens
    assert!(parse_add("+tri(0,0)(1,0)(0,1)").is_ok());
}

#[test]
fn keyword_case_is_not_normalized() {
    let e = parse_add("+ Circle (0,0) 1").unwrap_err();
    assert_eq!(e, ParseError::UnknownShape);
}

#[test]
fn empty_and_blank_input_need_a_sign() {
    assert_eq!(parse_add("").unwrap_err(), ParseError::NoSign);
    assert_eq!(parse_add("   ").unwrap_err(), ParseError::NoSign);
}

#[test]
fn leading_whitespace_is_chewed() {
    assert!(parse_add("   +   circle   (0,0)   1").is_ok());
}

#[test]
fn huge_literals_are_rejected_not_mangled() {
    // a mantissa past the i64 range is outside the exact model
    let e = parse_add("+ circle (0,0) 99999999999999999999").unwrap_err();
    assert_eq!(e, ParseError::DiameterNotANumber);
    // so is a fraction with too many digits for an exact denominator
    let e = parse_add("+ circle (0,0) 1.0000000000000000000").unwrap_err();
    assert_eq!(e, ParseError::DiameterNotANumber);
}

#[test]
fn chew_start_if_consumes_match_and_whitespace() {
    let mut work = Addfn::new("circle   (0,0)".chars().collect());
    assert!(!work.chew_start_if("quad"));
    assert!(work.chew_start_if("circle"));
    let rest: String = work.rest().into_iter().collect();
    assert_eq!(rest, "(0,0)");
}

#[test]
fn chew_start_if_notrim_keeps_whitespace() {
    let mut work = Addfn::new("circle   (0,0)".chars().collect());
    assert!(work.chew_start_if_notrim("circle"));
    let rest: String = work.rest().into_iter().collect();
    assert_eq!(rest, "   (0,0)");
    // a failed match leaves the cursor unchanged
    assert!(!work.chew_start_if_notrim("quad"));
    let rest: String = work.rest().into_iter().collect();
    assert_eq!(rest, "   (0,0)");
}

#[test]
fn chew_float_scans_incrementally() {
    let mut work = Addfn::new("-12.5   rest".chars().collect());
    let f = work.chew_float().unwrap();
    assert!(f.value_eq(Frac { num: -25, den: 2 }));
    let rest: String = work.rest().into_iter().collect();
    assert_eq!(rest, "rest");
    // and fails without consuming a value when no digits follow
    let mut work = Addfn::new("abc".chars().collect());
    assert!(work.chew_float().is_err());
}
