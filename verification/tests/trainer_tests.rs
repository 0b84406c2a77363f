use polyclass::trainer::{
    init_theta, logistic_epoch_update, perceptron_pass, TrainConfig, NOISE_LIMIT,
};
use polyclass::Label;

const FEATURE_DEN: f64 = 65025.0;
const WEIGHT_DEN: f64 = 65025.0 * 65025.0;
const SCORE_DEN: f64 = 65025.0 * 65025.0 * 65025.0;

fn feat(values: &[f64]) -> Vec<i32> {
    values
        .iter()
        .map(|v| (v * FEATURE_DEN).round() as i32)
        .collect()
}

fn sigmoid(z: f64) -> f64 {
    1.0 / (1.0 + (-z).exp())
}

fn guesses_for(theta: &Vec<i64>, xs: &Vec<Vec<i32>>) -> Vec<i64> {
    xs.iter()
        .map(|x| {
            let dot: i128 = theta
                .iter()
                .zip(x.iter())
                .map(|(w, v)| (*w as i128) * (*v as i128))
                .sum();
            let g = sigmoid(dot as f64 / SCORE_DEN);
            ((g * FEATURE_DEN).round() as i64).clamp(0, 65025)
        })
        .collect()
}

fn regularized_log_loss(theta: &Vec<i64>, xs: &Vec<Vec<i32>>, ys: &[Label], lambda: f64) -> f64 {
    let n = xs.len() as f64;
    let mut data = 0.0;
    for (x, y) in xs.iter().zip(ys.iter()) {
        let dot: i128 = theta
            .iter()
            .zip(x.iter())
            .map(|(w, v)| (*w as i128) * (*v as i128))
            .sum();
        let g = sigmoid(dot as f64 / SCORE_DEN).clamp(1e-12, 1.0 - 1e-12);
        let yv = match y {
            Label::Cat => 0.0,
            Label::Dog => 1.0,
        };
        data += -(yv * g.ln() + (1.0 - yv) * (1.0 - g).ln());
    }
    let reg: f64 = theta
        .iter()
        .map(|w| {
            let v = *w as f64 / WEIGHT_DEN;
            v * v
        })
        .sum();
    data / n + lambda / 2.0 * reg
}

#[test]
fn epoch_update_matches_the_formula_exactly() {
    // One sample of constant-one features, label dog, guess 0: the gradient
    // sum at each coordinate is 65025 * (0 - 65025) = -4228250625, and with
    // eta = 1/20, lambda = 1/2 the update from zero weights is
    // -trunc(-4228250625 / 20) = 211412531.
    let theta: Vec<i64> = vec![0, 0];
    let xs: Vec<Vec<i32>> = vec![vec![65025, 65025]];
    let gs: Vec<i64> = vec![0];
    let ys: Vec<Label> = vec![Label::Dog];
    let cfg = TrainConfig {
        epochs: 1,
        eta_num: 1,
        eta_den: 20,
        lambda_num: 1,
        lambda_den: 2,
    };
    let out = logistic_epoch_update(&theta, &xs, &gs, &ys, &cfg);
    assert_eq!(out, vec![211412531, 211412531]);
}

#[test]
fn epoch_update_regularization_term_uses_current_weight() {
    // Guess equal to the label leaves the gradient sum at zero, so only the
    // L2 term moves the weight: theta' = theta + trunc(theta / 40).
    let theta: Vec<i64> = vec![4000, -4000];
    let xs: Vec<Vec<i32>> = vec![vec![65025, -65025]];
    let gs: Vec<i64> = vec![65025];
    let ys: Vec<Label> = vec![Label::Dog];
    let cfg = TrainConfig {
        epochs: 1,
        eta_num: 1,
        eta_den: 20,
        lambda_num: 1,
        lambda_den: 2,
    };
    let out = logistic_epoch_update(&theta, &xs, &gs, &ys, &cfg);
    assert_eq!(out, vec![4000 + 100, -4000 - 100]);
}

#[test]
fn gradient_descent_loss_never_increases_early() {
    // Four samples, three features plus bias, linearly separable; small
    // learning rate. The regularized log-loss must not grow between epochs.
    let xs: Vec<Vec<i32>> = vec![
        feat(&[1.0, 0.5, -0.2, 1.0]),
        feat(&[-1.0, -0.3, 0.4, 1.0]),
        feat(&[0.8, 0.9, -0.5, 1.0]),
        feat(&[-0.5, -0.9, 0.1, 1.0]),
    ];
    let ys: Vec<Label> = vec![Label::Dog, Label::Cat, Label::Dog, Label::Cat];
    let cfg = TrainConfig {
        epochs: 12,
        eta_num: 1,
        eta_den: 100,
        lambda_num: 1,
        lambda_den: 10,
    };
    let lambda = 1.0 / 10.0;
    let mut theta: Vec<i64> = vec![0; 4];
    let mut last = regularized_log_loss(&theta, &xs, &ys, lambda);
    for _ in 0..cfg.epochs {
        let gs = guesses_for(&theta, &xs);
        theta = logistic_epoch_update(&theta, &xs, &gs, &ys, &cfg);
        let loss = regularized_log_loss(&theta, &xs, &ys, lambda);
        assert!(
            loss <= last + 1e-9,
            "loss grew from {last} to {loss}"
        );
        last = loss;
    }
}

#[test]
fn perceptron_updates_only_on_mistakes() {
    // Zero weights score 0, the sign rule says cat, the label is dog: one
    // mistake, and each weight moves by label * feature * 65025.
    let theta: Vec<i64> = vec![0, 0];
    let xs: Vec<Vec<i32>> = vec![vec![65025, -32512]];
    let ys: Vec<Label> = vec![Label::Dog];
    let (theta2, mistakes) = perceptron_pass(theta, &xs, &ys);
    assert_eq!(mistakes, 1);
    assert_eq!(theta2, vec![65025i64 * 65025, -32512i64 * 65025]);

    // A second pass now classifies the sample correctly and changes nothing.
    let (theta3, mistakes2) = perceptron_pass(theta2.clone(), &xs, &ys);
    assert_eq!(mistakes2, 0);
    assert_eq!(theta3, theta2);
}

#[test]
fn perceptron_converges_on_separable_data() {
    // A linearly separable two-feature-plus-bias set: repeated passes drive
    // the mistake count to zero within a bounded number of passes.
    let xs: Vec<Vec<i32>> = vec![
        feat(&[1.0, 1.0, 1.0]),
        feat(&[-1.0, -1.0, 1.0]),
        feat(&[0.8, 0.6, 1.0]),
        feat(&[-0.7, -0.9, 1.0]),
        feat(&[0.3, 0.9, 1.0]),
        feat(&[-0.2, -0.6, 1.0]),
    ];
    let ys: Vec<Label> = vec![
        Label::Dog,
        Label::Cat,
        Label::Dog,
        Label::Cat,
        Label::Dog,
        Label::Cat,
    ];
    let mut theta: Vec<i64> = vec![0; 3];
    let mut converged = false;
    for _ in 0..50 {
        let (next, mistakes) = perceptron_pass(theta, &xs, &ys);
        theta = next;
        if mistakes == 0 {
            converged = true;
            break;
        }
    }
    assert!(converged, "no mistake-free pass within 50 passes");
    let (_, final_mistakes) = perceptron_pass(theta, &xs, &ys);
    assert_eq!(final_mistakes, 0);
}

#[test]
fn initial_weights_are_small_noise() {
    let theta = init_theta(400);
    assert_eq!(theta.len(), 400);
    for w in &theta {
        assert!(-NOISE_LIMIT <= *w && *w <= NOISE_LIMIT);
        // 0.01 of the weight denominator.
        assert!((*w as f64 / (65025.0 * 65025.0)).abs() <= 0.01);
    }
}
