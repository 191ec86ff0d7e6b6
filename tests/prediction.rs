use ml_from_scratch::{compute_model, physics_ball_drop_experiment, prediction_series};
use ml_from_scratch::{Observation, Ratio};

fn value(r: Ratio) -> f64 {
    r.numerator as f64 / r.denominator as f64
}

#[test]
fn prediction_at_mean_is_mean() {
    let data = physics_ball_drop_experiment();
    let model = compute_model(&data).unwrap();
    // the average x is exactly 15
    let at_mean = model.predict(1500);
    assert!((value(at_mean) - value(model.average_of_y)).abs() < 1e-12);
    assert_eq!(at_mean.numerator * 1800, 21300 * at_mean.denominator);
}

#[test]
fn prediction_on_a_known_line() {
    let data = vec![Observation { x: 100, y: 300 }, Observation { x: 200, y: 500 }];
    let model = compute_model(&data).unwrap();
    // y = 2x + 1
    let p = model.predict(300);
    assert_eq!(p.numerator, 7 * p.denominator);
    let q = model.predict(-150);
    assert_eq!(q.numerator, -2 * q.denominator);
}

#[test]
fn series_spans_one_unit_past_the_data() {
    let data = physics_ball_drop_experiment();
    let model = compute_model(&data).unwrap();
    let series = prediction_series(&model, &data);
    let xs: Vec<i32> = series.iter().map(|p| p.x).collect();
    assert_eq!(xs, (9..=21).collect::<Vec<i32>>());
    for p in &series {
        let expected = value(model.beta) * p.x as f64 + value(model.alpha);
        assert!((value(p.prediction) - expected).abs() < 1e-9);
    }
}

#[test]
fn series_rounds_fractional_ends_outward() {
    let data = vec![Observation { x: -250, y: 0 }, Observation { x: 1720, y: 100 }];
    let model = compute_model(&data).unwrap();
    let series = prediction_series(&model, &data);
    assert_eq!(series.first().unwrap().x, -4);
    assert_eq!(series.last().unwrap().x, 19);
    assert_eq!(series.len(), 24);
}

#[test]
fn observation_range_check() {
    assert!(Observation::new(1_000_000, -1_000_000).is_in_range());
    assert!(!Observation::new(1_000_001, 0).is_in_range());
    assert!(!Observation::new(0, -1_000_001).is_in_range());
}

#[test]
fn fitted_models_are_well_formed() {
    let model = compute_model(&physics_ball_drop_experiment()).unwrap();
    assert!(model.is_well_formed());
    let mut broken = model;
    broken.alpha.denominator += 1;
    assert!(!broken.is_well_formed());
    let mut huge = model;
    huge.beta.denominator = i128::MAX;
    assert!(!huge.is_well_formed());
    let mut empty = model;
    empty.count = 0;
    assert!(!empty.is_well_formed());
}
