use ml_from_scratch::{compute_model, physics_ball_drop_experiment, FitError, LinearModel};
use ml_from_scratch::{Observation, Ratio};

fn value(r: Ratio) -> f64 {
    r.numerator as f64 / r.denominator as f64
}

fn close(expected: f64, actual: f64, tolerance: f64) -> bool {
    (expected - actual).abs() <= tolerance
}

fn root_mean_square_error(model: &LinearModel) -> f64 {
    value(model.mean_square_error).sqrt()
}

#[test]
fn round_trip() {
    let m = -2_i32;
    let b = -10_i32;
    let count = 201_usize;

    // x = 0, 1, ..., 200 and y = m·x + b, both in hundredths
    let training_data: Vec<Observation> = (0..count as i32)
        .map(|x| Observation { x: x * 100, y: (m * x + b) * 100 })
        .collect();

    let model = compute_model(&training_data).unwrap();

    assert!(close(b as f64, value(model.alpha), 1e-9));
    assert!(close(m as f64, value(model.beta), 1e-9));
    assert_eq!(count, model.count);
    assert!(close(20100.0, value(model.sum_of_x), 1e-9));
    assert!(close(100.0, value(model.average_of_x), 1e-9));
    assert!(close(-42210.0, value(model.sum_of_y), 1e-9));
    assert!(close(-210.0, value(model.average_of_y), 1e-9));
    assert!(close(0.0, root_mean_square_error(&model), 1e-9));
    assert!(close(1.0, value(model.coefficient_of_determination.unwrap()), 1e-9));
}

#[test]
fn test_physics_ball_drop_experiment() {
    let model = compute_model(&physics_ball_drop_experiment()).unwrap();

    assert!(close(-0.3452387, value(model.alpha), 1e-5));
    assert!(close(0.8119048, value(model.beta), 1e-5));
    assert_eq!(18, model.count);
    assert!(close(270.0, value(model.sum_of_x), 1e-9));
    assert!(close(15.0, value(model.average_of_x), 1e-9));
    assert!(close(213.0, value(model.sum_of_y), 1e-9));
    assert!(close(11.833333, value(model.average_of_y), 1e-5));
    assert!(close(0.41299996, root_mean_square_error(&model), 1e-5));
    assert!(close(0.9783022, value(model.coefficient_of_determination.unwrap()), 1e-5));
}

#[test]
fn exact_recovery_is_exact() {
    // y = 3x − 1.25 in whole units
    let data: Vec<Observation> =
        (-5..7).map(|x| Observation { x: x * 100, y: 3 * x * 100 - 125 }).collect();
    let model = compute_model(&data).unwrap();
    assert_eq!(model.beta.numerator, 3 * model.beta.denominator);
    assert_eq!(100 * model.alpha.numerator, -125 * model.alpha.denominator);
    assert_eq!(model.mean_square_error.numerator, 0);
    let r2 = model.coefficient_of_determination.unwrap();
    assert_eq!(r2.numerator, r2.denominator);
}

#[test]
fn ball_drop_exact_sums() {
    let model = compute_model(&physics_ball_drop_experiment()).unwrap();
    assert_eq!(model.sum_of_x, Ratio { numerator: 27000, denominator: 100 });
    assert_eq!(model.sum_of_y, Ratio { numerator: 21300, denominator: 100 });
    assert_eq!(model.average_of_x, Ratio { numerator: 27000, denominator: 1800 });
    assert_eq!(model.average_of_y, Ratio { numerator: 21300, denominator: 1800 });
}

#[test]
fn averages_times_count_are_sums() {
    let model = compute_model(&physics_ball_drop_experiment()).unwrap();
    let n = model.count as i128;
    assert_eq!(
        model.average_of_x.numerator * n * model.sum_of_x.denominator,
        model.sum_of_x.numerator * model.average_of_x.denominator
    );
    assert_eq!(
        model.average_of_y.numerator * n * model.sum_of_y.denominator,
        model.sum_of_y.numerator * model.average_of_y.denominator
    );
}

#[test]
fn r_squared_at_most_one() {
    let data = vec![
        Observation { x: 0, y: 500 },
        Observation { x: 100, y: -300 },
        Observation { x: 200, y: 900 },
        Observation { x: 300, y: 100 },
    ];
    let model = compute_model(&data).unwrap();
    let r2 = model.coefficient_of_determination.unwrap();
    assert!(r2.denominator > 0);
    assert!(0 <= r2.numerator && r2.numerator <= r2.denominator);
    assert!(r2.numerator < r2.denominator);
    assert!(model.mean_square_error.numerator > 0);
}

#[test]
fn fit_is_deterministic() {
    let data = physics_ball_drop_experiment();
    let first = compute_model(&data);
    let second = compute_model(&data);
    assert_eq!(first, second);
}

#[test]
fn fit_ignores_order() {
    let data = physics_ball_drop_experiment();
    let mut reordered = data.clone();
    reordered.reverse();
    reordered.swap(0, 7);
    assert_eq!(compute_model(&data), compute_model(&reordered));
}

#[test]
fn single_observation_is_degenerate() {
    let data = vec![Observation { x: 1000, y: 750 }];
    assert_eq!(compute_model(&data), Err(FitError::DegenerateFit));
}

#[test]
fn equal_x_is_degenerate() {
    let data = vec![
        Observation { x: 400, y: 100 },
        Observation { x: 400, y: 200 },
        Observation { x: 400, y: 900 },
    ];
    assert_eq!(compute_model(&data), Err(FitError::DegenerateFit));
}

#[test]
fn empty_input_is_rejected() {
    assert_eq!(compute_model(&[]), Err(FitError::InvalidInput));
}

#[test]
fn coordinate_out_of_range_is_rejected() {
    let data = vec![Observation { x: 0, y: 0 }, Observation { x: 100, y: 1_000_001 }];
    assert_eq!(compute_model(&data), Err(FitError::OutOfRange));
    let data = vec![Observation { x: -1_000_001, y: 0 }, Observation { x: 100, y: 0 }];
    assert_eq!(compute_model(&data), Err(FitError::OutOfRange));
}

#[test]
fn too_many_observations_are_rejected() {
    let data: Vec<Observation> = (0..2049).map(|x| Observation { x, y: x }).collect();
    assert_eq!(compute_model(&data), Err(FitError::OutOfRange));
    let data: Vec<Observation> = (0..2048).map(|x| Observation { x, y: x }).collect();
    assert!(compute_model(&data).is_ok());
}

#[test]
fn largest_accepted_inputs_fit() {
    let data: Vec<Observation> = (0..2048)
        .map(|i| {
            let sign = if i % 2 == 0 { 1 } else { -1 };
            Observation { x: sign * 1_000_000, y: -sign * 1_000_000 }
        })
        .collect();
    let model = compute_model(&data).unwrap();
    assert!(close(-1.0, value(model.beta), 1e-12));
    assert!(close(0.0, value(model.alpha), 1e-12));
    assert_eq!(model.mean_square_error.numerator, 0);
}

#[test]
fn constant_y_has_no_r_squared() {
    let data = vec![
        Observation { x: 0, y: 500 },
        Observation { x: 100, y: 500 },
        Observation { x: 300, y: 500 },
    ];
    let model = compute_model(&data).unwrap();
    assert_eq!(model.coefficient_of_determination, None);
    assert_eq!(model.beta.numerator, 0);
    assert!(close(5.0, value(model.alpha), 1e-12));
    assert_eq!(model.mean_square_error.numerator, 0);
}

#[test]
fn two_points_give_their_line() {
    // through (1, 2) and (3, 8): slope 3, intercept −1
    let data = vec![Observation { x: 100, y: 200 }, Observation { x: 300, y: 800 }];
    let model = compute_model(&data).unwrap();
    assert_eq!(model.beta, Ratio { numerator: 120000, denominator: 40000 });
    assert!(close(-1.0, value(model.alpha), 1e-12));
    assert_eq!(model.count, 2);
}

#[test]
fn mean_square_error_of_known_residuals() {
    // (0, 0), (1, 1), (2, 0): slope 0, intercept 1/3, residuals −1/3, 2/3, −1/3
    let data = vec![
        Observation { x: 0, y: 0 },
        Observation { x: 100, y: 100 },
        Observation { x: 200, y: 0 },
    ];
    let model = compute_model(&data).unwrap();
    assert_eq!(model.beta.numerator, 0);
    assert!(close(1.0 / 3.0, value(model.alpha), 1e-12));
    assert!(close(2.0 / 9.0, value(model.mean_square_error), 1e-12));
    assert!(close(0.0, value(model.coefficient_of_determination.unwrap()), 1e-12));
}

#[test]
fn error_is_mean_squared_residual() {
    let data = physics_ball_drop_experiment();
    let model = compute_model(&data).unwrap();
    let (alpha, beta) = (value(model.alpha), value(model.beta));
    let mean: f64 = data
        .iter()
        .map(|o| {
            let residual = o.y as f64 / 100.0 - (beta * o.x as f64 / 100.0 + alpha);
            residual * residual
        })
        .sum::<f64>()
        / data.len() as f64;
    assert!(close(mean, value(model.mean_square_error), 1e-12));
}

#[test]
fn r_squared_is_explained_share() {
    let data = physics_ball_drop_experiment();
    let model = compute_model(&data).unwrap();
    let average_y = value(model.average_of_y);
    let total: f64 = data
        .iter()
        .map(|o| (o.y as f64 / 100.0 - average_y) * (o.y as f64 / 100.0 - average_y))
        .sum();
    let residual = data.len() as f64 * value(model.mean_square_error);
    let r2 = value(model.coefficient_of_determination.unwrap());
    assert!(close(1.0 - residual / total, r2, 1e-12));
}

#[test]
fn ball_drop_dataset_values() {
    let data = physics_ball_drop_experiment();
    assert_eq!(data.len(), 18);
    assert_eq!(data[2], Observation { x: 1000, y: 700 });
    assert_eq!(data[5], Observation { x: 1200, y: 975 });
    assert_eq!(data[17], Observation { x: 2000, y: 1600 });
    assert_eq!(data.iter().map(|o| o.x).sum::<i32>(), 27000);
    assert_eq!(data.iter().map(|o| o.y).sum::<i32>(), 21300);
    assert!(data.iter().all(|o| o.y > 0));
    let mut first = physics_ball_drop_experiment();
    first[0].y = 0;
    assert_eq!(physics_ball_drop_experiment(), data);
}

#[test]
fn exact_recovery_with_fractional_slope() {
    // y = (2/3)·x + 0.5 in whole units, sampled where both coordinates are whole hundredths
    let data: Vec<Observation> =
        (-4..9).map(|k| Observation { x: 300 * k, y: 200 * k + 50 }).collect();
    let model = compute_model(&data).unwrap();
    assert_eq!(3 * model.beta.numerator, 2 * model.beta.denominator);
    assert_eq!(2 * model.alpha.numerator, model.alpha.denominator);
    assert_eq!(model.mean_square_error.numerator, 0);
    let r2 = model.coefficient_of_determination.unwrap();
    assert_eq!(r2.numerator, r2.denominator);
}
