use tesla_fan_control::curve::{Curve, CurveError};
use tesla_fan_control::units::{Celsius, Pct};

fn pt(t: i16, p: u8) -> (Celsius, Pct) {
    (Celsius(t), Pct(p))
}

#[test]
fn rejects_zero_points() {
    assert_eq!(Curve::new(vec![]), Err(CurveError::TooFewPoints(0)));
}

#[test]
fn rejects_one_point() {
    assert_eq!(
        Curve::new(vec![pt(40, 20)]),
        Err(CurveError::TooFewPoints(1))
    );
}

#[test]
fn rejects_eleven_points() {
    let pts: Vec<_> = (0i16..11).map(|i| pt(i * 10, (i as u8) * 10)).collect();
    assert_eq!(Curve::new(pts), Err(CurveError::TooManyPoints(11)));
}

#[test]
fn rejects_out_of_order_temps() {
    let result = Curve::new(vec![pt(40, 20), pt(30, 30)]);
    assert!(matches!(result, Err(CurveError::NotMonotonicTemp { .. })));
}

#[test]
fn rejects_duplicate_temps() {
    let result = Curve::new(vec![pt(40, 20), pt(40, 30)]);
    assert_eq!(result, Err(CurveError::DuplicateTemp(Celsius(40))));
}

#[test]
fn rejects_decreasing_pct() {
    let result = Curve::new(vec![pt(40, 50), pt(60, 40)]);
    assert!(matches!(result, Err(CurveError::NotMonotonicPct { .. })));
}

#[test]
fn accepts_canonical_curve() {
    let c = Curve::new(vec![pt(40, 20), pt(55, 40), pt(70, 80), pt(80, 100)]);
    assert!(c.is_ok());
}

#[test]
fn evaluate_midpoint_interpolates() {
    // 40:20, 60:60 gives 40 halfway, at 50.
    let c = Curve::new(vec![pt(40, 20), pt(60, 60)]).unwrap();
    assert_eq!(c.evaluate(Celsius(50)), Pct(40));
}

#[test]
fn evaluate_clamps_below() {
    let c = Curve::new(vec![pt(40, 20), pt(60, 60)]).unwrap();
    assert_eq!(c.evaluate(Celsius(0)), Pct(20));
    assert_eq!(c.evaluate(Celsius(40)), Pct(20));
}

#[test]
fn evaluate_clamps_above() {
    let c = Curve::new(vec![pt(40, 20), pt(60, 60)]).unwrap();
    assert_eq!(c.evaluate(Celsius(100)), Pct(60));
}

#[test]
fn evaluate_returns_exact_at_defined_point() {
    let c = Curve::new(vec![pt(40, 20), pt(55, 40), pt(70, 80), pt(80, 100)]).unwrap();
    assert_eq!(c.evaluate(Celsius(40)), Pct(20));
    assert_eq!(c.evaluate(Celsius(55)), Pct(40));
    assert_eq!(c.evaluate(Celsius(70)), Pct(80));
    assert_eq!(c.evaluate(Celsius(80)), Pct(100));
}

#[test]
fn evaluation_never_falls_and_stays_between_the_ends() {
    let c = Curve::new(vec![pt(-10, 5), pt(3, 5), pt(55, 40), pt(56, 99), pt(110, 100)]).unwrap();
    let mut last = Pct(0);
    for t in -40i16..150 {
        let p = c.evaluate(Celsius(t));
        assert!(p >= last);
        assert!(p >= Pct(5) && p <= Pct(100));
        last = p;
    }
}

#[test]
fn interpolation_rounds_down() {
    let c = Curve::new(vec![pt(40, 20), pt(43, 21)]).unwrap();
    assert_eq!(c.evaluate(Celsius(41)), Pct(20));
    assert_eq!(c.evaluate(Celsius(42)), Pct(20));
    assert_eq!(c.evaluate(Celsius(43)), Pct(21));
    let wide = Curve::new(vec![pt(i16::MIN, 0), pt(i16::MAX, 255)]).unwrap();
    assert_eq!(wide.evaluate(Celsius(0)), Pct(127));
}

#[test]
fn first_fault_decides() {
    assert_eq!(
        Curve::new(vec![pt(40, 50), pt(60, 40), pt(60, 60)]),
        Err(CurveError::NotMonotonicPct { prev: Pct(50), next: Pct(40) })
    );
    assert_eq!(
        Curve::new(vec![pt(40, 50), pt(30, 40)]),
        Err(CurveError::NotMonotonicTemp { prev: Celsius(40), next: Celsius(30) })
    );
}

#[test]
fn ten_points_are_accepted_and_kept() {
    let pts: Vec<_> = (0i16..10).map(|i| pt(i * 10, (i as u8) * 10)).collect();
    let c = Curve::new(pts.clone()).unwrap();
    assert_eq!(c.points().to_vec(), pts);
    assert_eq!(c.clone(), c);
}
