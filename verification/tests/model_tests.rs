use polyclass::model::{classify, predict, score, ModelKind};
use polyclass::{ClassifierError, Label};

#[test]
fn score_is_the_exact_dot_product() {
    let w: Vec<i64> = vec![1, 2, 3];
    let x: Vec<i32> = vec![4, 5, 6];
    assert_eq!(score(&w, &x), Ok(32i128));
    let w2: Vec<i64> = vec![-7, 0];
    let x2: Vec<i32> = vec![3, 1000];
    assert_eq!(score(&w2, &x2), Ok(-21i128));
    let empty_w: Vec<i64> = Vec::new();
    let empty_x: Vec<i32> = Vec::new();
    assert_eq!(score(&empty_w, &empty_x), Ok(0i128));
}

#[test]
fn dimension_mismatch_is_an_error_never_a_truncation() {
    let w: Vec<i64> = vec![1, 2];
    let x: Vec<i32> = vec![4, 5, 6];
    assert_eq!(score(&w, &x), Err(ClassifierError::DimensionMismatch));
    assert_eq!(
        classify(ModelKind::Logistic, &w, &x),
        Err(ClassifierError::DimensionMismatch)
    );
    let w3: Vec<i64> = vec![1, 2, 3, 4];
    assert_eq!(score(&w3, &x), Err(ClassifierError::DimensionMismatch));
}

#[test]
fn logistic_decision_threshold_is_half() {
    // sigmoid(d) >= 1/2 exactly when d >= 0.
    assert_eq!(predict(ModelKind::Logistic, 0), Label::Dog);
    assert_eq!(predict(ModelKind::Logistic, 1), Label::Dog);
    assert_eq!(predict(ModelKind::Logistic, -1), Label::Cat);
}

#[test]
fn sign_decision_is_the_sign_of_the_score() {
    assert_eq!(predict(ModelKind::Sign, 0), Label::Cat);
    assert_eq!(predict(ModelKind::Sign, -5), Label::Cat);
    assert_eq!(predict(ModelKind::Sign, 5), Label::Dog);
}

#[test]
fn classify_composes_score_and_threshold() {
    let w: Vec<i64> = vec![4228250625, -4228250625]; // 1.0 and -1.0
    let x: Vec<i32> = vec![65025, 0]; // 1.0 and 0.0
    assert_eq!(classify(ModelKind::Logistic, &w, &x), Ok(Label::Dog));
    assert_eq!(classify(ModelKind::Sign, &w, &x), Ok(Label::Dog));
    let x_neg: Vec<i32> = vec![-65025, 0];
    assert_eq!(classify(ModelKind::Logistic, &w, &x_neg), Ok(Label::Cat));
    assert_eq!(classify(ModelKind::Sign, &w, &x_neg), Ok(Label::Cat));
}
