use rustat::dist::cdf_normal;
use rustat::dist::cdf_std_normal;
use rustat::fixed::Fx;
use rustat::fixed::SCALE;
use rustat::normal::Edge;
use rustat::normal::Normal;
use rustat::normal::Span;
use rustat::normal::Xr;

fn fx(x: f64) -> Fx {
    Fx { v: (x * 1e12).round() as i64 }
}

fn to_f64(x: Fx) -> f64 {
    (x.v as f64) / 1e12
}

fn span(a: f64, b: f64) -> Span {
    Span { start: Edge::Included(fx(a)), end: Edge::Excluded(fx(b)) }
}

fn span_to(b: f64) -> Span {
    Span { start: Edge::Unbounded, end: Edge::Excluded(fx(b)) }
}

#[test]
fn cdf_tests() {
    let dist = Normal::standard();
    let vectors = vec![
        (-0.228756, 0.409525),
        (-0.491818, 0.311434),
        (-1.266972, 0.102572),
        (1.389189, 0.917621),
        (0.659599, 0.745236),
        (1.022284, 0.846685),
        (-1.320967, 0.093246),
        (0.477800, 0.683593),
        (-1.282607, 0.099804),
        (-1.159063, 0.123205),
    ];
    let diff = vectors
        .iter()
        .map(|(x, y)| y - to_f64(dist.cdf(Xr::Finite(fx(*x)))))
        .collect::<Vec<f64>>();
    let pass = diff.iter().filter(|x| **x > 1e-6).next().is_none();
    assert!(
        pass,
        "CDF values are not within acceptable range: {:#?}",
        diff
    );
}

#[test]
fn normal_std_normal_table_values() {
    let dist = Normal::standard();
    let vectors = vec![
        (to_f64(dist.p(span(0.0, 1.0))), 0.34134),
        (to_f64(dist.p(span(0.0, 2.0))), 0.47725),
        (to_f64(dist.p(span(0.0, 3.0))), 0.49865),
        (to_f64(dist.p(span(-1.0, 2.0))), 0.34134 + 0.47725),
        (to_f64(dist.p(span_to(0.0))), 0.5),
    ];
    let diff = vectors
        .iter()
        .map(|(v, t)| (v - t).abs())
        .collect::<Vec<_>>();
    let pass = diff.iter().filter(|x| **x > 1e-3).next().is_none();
    assert!(
        pass,
        "STDNORM P values are not withing acceptable range: {:#?}",
        vectors
    );
}

#[test]
fn dist_std_normal_table_values() {
    let values = vec![
        (to_f64(cdf_std_normal(span(0.0, 1.0))), 0.34134),
        (to_f64(cdf_std_normal(span(0.0, 2.0))), 0.47725),
        (to_f64(cdf_std_normal(span(0.0, 3.0))), 0.49865),
        (to_f64(cdf_std_normal(span(-1.0, 2.0))), 0.34134 + 0.47725),
        (to_f64(cdf_std_normal(span_to(0.0))), 0.5),
    ];
    let diff = values
        .iter()
        .map(|(v, t)| (v - t).abs())
        .collect::<Vec<_>>();
    let acceptable = diff.iter().filter(|x| **x > 0.001).next().is_none();
    assert!(acceptable, "Values are not withing acceptable range")
}

#[test]
fn cdf_boundaries() {
    let dist = Normal::standard();
    assert_eq!(dist.cdf(Xr::NegInf).v, 0);
    assert_eq!(dist.cdf(Xr::PosInf).v, SCALE);
    let full = Span { start: Edge::Unbounded, end: Edge::Unbounded };
    assert_eq!(dist.p(full).v, SCALE);
}

#[test]
fn probability_additivity() {
    let dist = Normal::standard();
    let ab = dist.p(span(-1.0, 0.5)).v;
    let bc = dist.p(span(0.5, 2.0)).v;
    let ac = dist.p(span(-1.0, 2.0)).v;
    assert_eq!(ab + bc, ac);
}

#[test]
fn reversed_span_negates() {
    let dist = Normal::standard();
    let fwd = dist.p(span(0.0, 1.0)).v;
    let rev = dist.p(span(1.0, 0.0)).v;
    assert_eq!(rev, -fwd);
}

#[test]
fn repeated_cdf_is_bit_identical() {
    let dist = Normal::standard();
    let a = dist.cdf(Xr::Finite(fx(0.7)));
    let b = dist.cdf(Xr::Finite(fx(0.7)));
    assert_eq!(a.v, b.v);
}

#[test]
fn negative_scale_is_its_magnitude() {
    let dist = Normal::new(fx(0.0), fx(-1.0));
    assert_eq!(dist.sigma().v, SCALE);
    let std = Normal::standard();
    assert_eq!(
        dist.cdf(Xr::Finite(fx(0.42))).v,
        std.cdf(Xr::Finite(fx(0.42))).v
    );
}

#[test]
fn location_getter() {
    let dist = Normal::new(fx(2.5), fx(1.5));
    assert_eq!(dist.mu().v, fx(2.5).v);
    assert_eq!(dist.sigma().v, fx(1.5).v);
}

#[test]
fn cdf_at_location_is_half() {
    let std = Normal::standard();
    assert_eq!(std.cdf(Xr::Finite(fx(0.0))).v, SCALE / 2);
    let shifted = Normal::new(fx(2.5), fx(1.5));
    assert_eq!(shifted.cdf(Xr::Finite(fx(2.5))).v, SCALE / 2);
}

#[test]
fn pdf_reference_value() {
    let dist = Normal::standard();
    let peak = to_f64(dist.pdf(fx(0.0)));
    assert!((peak - 0.3989422804014327).abs() < 1e-9);
}

#[test]
fn two_paths_agree() {
    // The closed-form route through erf and the quadrature route over the
    // density give the same interval probabilities within tolerance.
    let dist = Normal::standard();
    let closed = to_f64(dist.p(span(-1.0, 1.0)));
    let quad = to_f64(cdf_normal(dist, span(-1.0, 1.0)));
    assert!((closed - quad).abs() < 1e-3);
}

#[test]
fn excluded_and_included_edges_agree() {
    let dist = Normal::standard();
    let a = dist.p(Span { start: Edge::Included(fx(0.0)), end: Edge::Included(fx(1.0)) }).v;
    let b = dist.p(Span { start: Edge::Excluded(fx(0.0)), end: Edge::Excluded(fx(1.0)) }).v;
    assert_eq!(a, b);
}
