use rustat::erf::erf;
use rustat::exp::exp_neg;
use rustat::fixed::Fx;

fn fx(x: f64) -> Fx {
    Fx { v: (x * 1e12).round() as i64 }
}

fn to_f64(x: Fx) -> f64 {
    (x.v as f64) / 1e12
}

#[test]
fn erf_tests() {
    let vectors = vec![
        (-1.192007, -0.908156),
        (-0.416572, -0.444200),
        (-1.414748, -0.954564),
        (-0.800789, -0.742591),
        (1.006098, 0.845233),
        (-0.893251, -0.793521),
        (-0.559721, -0.571381),
        (0.673620, 0.659240),
        (-0.267749, -0.295042),
        (1.054527, 0.864136),
    ];
    let diff = vectors
        .iter()
        .map(|(x, y)| y - to_f64(erf(fx(*x))))
        .collect::<Vec<f64>>();
    let pass = diff.iter().filter(|x| **x > 1e-6).next().is_none();
    assert!(
        pass,
        "ERF values are not within acceptable range: {:#?}",
        diff
    );
}

#[test]
fn erf_odd_symmetry() {
    let xs = vec![0.0, 0.3, 0.75, 1.2, 2.5, 5.9, 6.0, 40.0];
    for x in xs {
        let pos = erf(fx(x));
        let neg = erf(fx(-x));
        assert_eq!(neg.v, -pos.v);
    }
}

#[test]
fn erf_zero_is_zero() {
    assert_eq!(erf(fx(0.0)).v, 0);
}

#[test]
fn erf_saturates_far_out() {
    assert_eq!(erf(fx(6.0)).v, 1_000_000_000_000);
    assert_eq!(erf(fx(-7.5)).v, -1_000_000_000_000);
}

#[test]
fn exp_neg_reference_value() {
    let e = exp_neg(fx(1.0).v);
    let expected = (-1.0f64).exp();
    assert!(((e as f64) / 1e12 - expected).abs() < 1e-9);
}

#[test]
fn exp_neg_at_zero_is_one() {
    assert_eq!(exp_neg(0), 1_000_000_000_000);
}
