use rustat::fixed::Fx;
use rustat::fixed::SCALE;
use rustat::normal::Normal;
use rustat::quad::midpoint_w;
use rustat::quad::trapezoid_w;
use rustat::quad::ConstFn;
use rustat::quad::Interval;

fn fx(x: f64) -> Fx {
    Fx { v: (x * 1e12).round() as i64 }
}

fn to_f64(x: Fx) -> f64 {
    (x.v as f64) / 1e12
}

fn iv(a: f64, b: f64) -> Interval {
    Interval { start: fx(a), end: fx(b) }
}

fn vectors() -> Vec<(f64, f64, f64)> {
    // The area under the standard normal distribution graph from x0 to x1.
    vec![
        (-2.33, -2.12, 0.007099947088468542),
        (-3.83, 1.60, 0.9451366366709532),
        (-1.99, 0.31, 0.5984240540718074),
        (-1.51, 2.89, 0.9325520787788957),
        (1.73, 2.77, 0.039012322980829905),
    ]
}

#[test]
fn trapezoid() {
    let dist = Normal::standard();
    let width = fx(0.0005);
    let diff = vectors()
        .iter()
        .map(|(a, b, v)| (to_f64(trapezoid_w(&dist, iv(*a, *b), width)) - v).abs())
        .collect::<Vec<_>>();
    let pass = diff.iter().filter(|x| **x > 1e-8).next().is_none();
    assert!(
        pass,
        "TRAPEZOID values are not within acceptable range: {:#?}",
        diff
    );
}

#[test]
fn midpoint() {
    let dist = Normal::standard();
    let width = fx(0.0005);
    let diff = vectors()
        .iter()
        .map(|(a, b, v)| (to_f64(midpoint_w(&dist, iv(*a, *b), width)) - v).abs())
        .collect::<Vec<_>>();
    let pass = diff.iter().filter(|x| **x > 1e-8).next().is_none();
    assert!(
        pass,
        "MIDPOINT values are not within acceptable range: {:#?}",
        diff
    );
}

#[test]
fn trapezoid_tests() {
    let dist = Normal::standard();
    let width = fx(0.05);
    let diff = vectors()
        .iter()
        .map(|(a, b, v)| (to_f64(rustat::calc::trapezoid_w(&dist, iv(*a, *b), width)) - v).abs())
        .collect::<Vec<_>>();
    let pass = diff.iter().filter(|x| **x > 1e-4).next().is_none();
    assert!(
        pass,
        "TRAPEZOID values are not within acceptable range: {:#?}",
        diff
    );
}

#[test]
fn rules_agree_on_constants() {
    let f = ConstFn { c: fx(2.0) };
    let width = fx(0.25);
    let m = midpoint_w(&f, iv(0.0, 3.0), width);
    let t = trapezoid_w(&f, iv(0.0, 3.0), width);
    assert_eq!(m.v, 6 * SCALE);
    assert_eq!(t.v, 6 * SCALE);
}

#[test]
fn order_independent() {
    let dist = Normal::standard();
    let width = fx(0.05);
    let a = midpoint_w(&dist, iv(-1.0, 2.0), width);
    let b = midpoint_w(&dist, iv(2.0, -1.0), width);
    assert_eq!(a.v, b.v);
}

#[test]
fn zero_length_interval() {
    let dist = Normal::standard();
    let r = midpoint_w(&dist, iv(2.0, 2.0), fx(0.05));
    assert_eq!(r.v, 0);
}

#[test]
fn area_matches_midpoint_default() {
    let dist = Normal::standard();
    let a = rustat::calc::area(&dist, iv(0.0, 1.0));
    let m = rustat::quad::midpoint(&dist, iv(0.0, 1.0));
    assert_eq!(a.v, m.v);
}

#[test]
fn repeated_integration_is_bit_identical() {
    let dist = Normal::standard();
    let width = fx(0.01);
    let a = trapezoid_w(&dist, iv(-1.5, 1.5), width);
    let b = trapezoid_w(&dist, iv(-1.5, 1.5), width);
    assert_eq!(a.v, b.v);
}
