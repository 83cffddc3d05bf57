use lightwire::curves::{
    BuiltinCurve, Curve, CurveConfig, GammaCurve, LinearCurve, LogarithmicCurve, PerceptualCurve,
};

fn all_curves() -> Vec<BuiltinCurve> {
    vec![
        CurveConfig::Linear.into_curve(),
        CurveConfig::Logarithmic { log_base: None }.into_curve(),
        CurveConfig::Gamma { gamma: None }.into_curve(),
        CurveConfig::Perceptual.into_curve(),
    ]
}

const FINE_PER_UNIT: u64 = 1_000_000_000_000;

fn close(a: u32, b: i64, tol: i64) -> bool {
    (a as i64 - b).abs() <= tol
}

fn fine(millionths: i64) -> i64 {
    millionths * FINE_PER_UNIT as i64
}

fn unit(b: u64) -> u32 {
    (b / FINE_PER_UNIT) as u32
}

#[test]
fn curve_outputs_stay_in_range() {
    for c in all_curves() {
        for v in [-5_000_000i64, -1, 0, 1, 80_000, 250_000, 500_000, 999_999, 1_000_000, 7_000_000] {
            assert!(c.apply(v) <= 1_000_000_000_000_000_000);
            assert!(c.inverse(v.saturating_mul(1_000_000_000_000)) <= 1_000_000);
            assert!(c.inverse(v) <= 1_000_000);
        }
    }
}

#[test]
fn linear_is_clamped_identity() {
    let c = LinearCurve;
    assert_eq!(unit(c.apply(250_000)), 250_000);
    assert_eq!(c.apply(250_000), 250_000 * FINE_PER_UNIT);
    assert_eq!(unit(c.apply(1_500_000)), 1_000_000);
    assert_eq!(c.inverse(-3), 0);
    assert_eq!(c.inverse(c.apply(123_456) as i64), 123_456);
    assert_eq!(c.name(), "linear");
}

#[test]
fn perceptual_exact_values() {
    let c = PerceptualCurve;
    assert_eq!(c.apply(0), 0);
    assert_eq!(unit(c.apply(80_000)), 8856);
    assert_eq!(unit(c.apply(1_000_000)), 1_000_000);
    assert_eq!(unit(c.apply(500_000)), 184_186);
    assert_eq!(c.inverse(fine(1_000_000)), 1_000_000);
    assert_eq!(c.inverse(fine(8_856)), 79_996);
    assert_eq!(c.name(), "perceptual");
}

#[test]
fn curves_round_trip_closely() {
    for c in all_curves() {
        for v in [50_000i64, 79_000, 79_999, 80_000, 81_000, 200_000, 500_000, 750_000, 1_000_000] {
            let back = c.inverse(c.apply(v) as i64);
            assert!(close(back, v, 100), "{} {}", c.name(), v);
        }
    }
    let p = PerceptualCurve;
    for v in (0..=1_000_000i64).step_by(997) {
        assert!(close(p.inverse(p.apply(v) as i64), v, 100), "{}", v);
    }
}

fn sample_volumes() -> Vec<i64> {
    let mut vs: Vec<i64> = vec![0, 1, 2, 5, 10, 50, 99, 100, 101, 150, 200, 500, 999, 1000, 1944, 5000, 14574, 30000, 50000];
    vs.extend((0..=1_000_000i64).step_by(47_317));
    vs.push(1_000_000);
    vs
}

#[test]
fn gamma_round_trip_reaches_the_dark_end() {
    for gamma in [250u32, 400, 1000, 2200, 3333, 4000] {
        let c = GammaCurve { gamma };
        for v in sample_volumes() {
            let back = c.inverse(c.apply(v) as i64);
            assert!(close(back, v, 100), "gamma {} v {} back {}", gamma, v, back);
        }
    }
    let steep = GammaCurve { gamma: 4000 };
    assert!(close(steep.inverse(steep.apply(30_000) as i64), 30_000, 100));
}

#[test]
fn logarithmic_round_trip_reaches_the_dark_end() {
    for log_base in [250u32, 500, 1000, 2000, 4000] {
        let c = LogarithmicCurve { log_base };
        for v in sample_volumes() {
            let back = c.inverse(c.apply(v) as i64);
            assert!(close(back, v, 100), "log {} v {} back {}", log_base, v, back);
        }
    }
    let quarter = LogarithmicCurve { log_base: 250 };
    assert!(close(quarter.inverse(quarter.apply(30_000) as i64), 30_000, 100));
}

#[test]
fn gamma_default_matches_power() {
    let c = GammaCurve::default_curve();
    assert_eq!(c.gamma, 2200);
    assert_eq!(unit(c.apply(1_000_000)), 1_000_000);
    assert_eq!(c.apply(0), 0);
    assert_eq!(c.inverse(0), 0);
    assert_eq!(c.inverse(fine(1_000_000)), 1_000_000);
    assert!(close(unit(c.apply(500_000)), 217_638, 50));
    assert!(close(c.inverse(fine(217_638)), 500_000, 50));
    assert_eq!(c.name(), "gamma");
}

#[test]
fn logarithmic_base_ten_is_identity() {
    let c = LogarithmicCurve::default_curve();
    assert_eq!(c.log_base, 1000);
    assert_eq!(c.apply(0), 0);
    assert_eq!(c.apply(-10), 0);
    assert_eq!(unit(c.apply(420_000)), 420_000);
    assert_eq!(c.inverse(fine(420_000)), 420_000);
    assert_eq!(c.name(), "logarithmic");
}

#[test]
fn logarithmic_base_hundred_is_square_root() {
    let c = LogarithmicCurve { log_base: 2000 };
    assert_eq!(unit(c.apply(250_000)), 500_000);
    assert_eq!(c.inverse(fine(500_000)), 250_000);
}

#[test]
fn factory_substitutes_defaults() {
    match (CurveConfig::Gamma { gamma: None }).into_curve() {
        BuiltinCurve::Gamma(g) => assert_eq!(g.gamma, 2200),
        _ => panic!("expected gamma"),
    }
    match (CurveConfig::Gamma { gamma: Some(1800) }).into_curve() {
        BuiltinCurve::Gamma(g) => assert_eq!(g.gamma, 1800),
        _ => panic!("expected gamma"),
    }
    match (CurveConfig::Logarithmic { log_base: None }).into_curve() {
        BuiltinCurve::Logarithmic(l) => assert_eq!(l.log_base, 1000),
        _ => panic!("expected logarithmic"),
    }
    assert_eq!(CurveConfig::named("gamma"), Some(CurveConfig::Gamma { gamma: None }));
    assert_eq!(CurveConfig::named("perceptual"), Some(CurveConfig::Perceptual));
    assert_eq!(CurveConfig::named("cubic"), None);
    assert_eq!(CurveConfig::Linear.into_curve().name(), "linear");
    assert_eq!((CurveConfig::Gamma { gamma: None }).into_curve().name(), "gamma");
    assert_eq!((CurveConfig::Logarithmic { log_base: None }).into_curve().name(), "logarithmic");
    assert_eq!(CurveConfig::Perceptual.into_curve().name(), "perceptual");
}
