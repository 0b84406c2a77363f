use polyclass::dataset::{test_source, train_source};
use polyclass::eval::evaluate;
use polyclass::model::ModelKind;
use polyclass::{ClassifierError, Label};

#[test]
fn training_indices_map_by_parity_with_offset() {
    assert_eq!(train_source(0), (Label::Cat, 3500));
    assert_eq!(train_source(1), (Label::Dog, 3500));
    assert_eq!(train_source(2), (Label::Cat, 3501));
    assert_eq!(train_source(3), (Label::Dog, 3501));
    assert_eq!(train_source(7), (Label::Dog, 3503));
    assert_eq!(train_source(100), (Label::Cat, 3550));
}

#[test]
fn test_indices_map_by_parity_without_offset() {
    assert_eq!(test_source(0), (Label::Cat, 0));
    assert_eq!(test_source(1), (Label::Dog, 0));
    assert_eq!(test_source(4), (Label::Cat, 2));
    assert_eq!(test_source(5), (Label::Dog, 2));
    assert_eq!(test_source(99), (Label::Dog, 49));
}

#[test]
fn evaluator_scores_a_perfect_model_at_full_accuracy() {
    // Four samples labelled cat, dog, cat, dog and one weight of value 1:
    // cats carry feature -1 and dogs +1, so both policies decide every
    // sample correctly and the accuracy is 100%.
    let w: Vec<i64> = vec![4228250625];
    let samples: Vec<(Vec<i32>, Label)> = vec![
        (vec![-65025], Label::Cat),
        (vec![65025], Label::Dog),
        (vec![-65025], Label::Cat),
        (vec![65025], Label::Dog),
    ];
    for kind in [ModelKind::Logistic, ModelKind::Sign] {
        let acc = evaluate(kind, &w, &samples).expect("evaluation must succeed");
        assert_eq!(acc.correct, 4);
        assert_eq!(acc.total, 4);
        assert_eq!(acc.percent(), 100);
    }
}

#[test]
fn evaluator_counts_partial_matches() {
    // The same weights, but one dog mislabelled as cat: three of four match.
    let w: Vec<i64> = vec![4228250625];
    let samples: Vec<(Vec<i32>, Label)> = vec![
        (vec![-65025], Label::Cat),
        (vec![65025], Label::Dog),
        (vec![65025], Label::Cat),
        (vec![65025], Label::Dog),
    ];
    let acc = evaluate(ModelKind::Logistic, &w, &samples).expect("evaluation must succeed");
    assert_eq!(acc.correct, 3);
    assert_eq!(acc.total, 4);
    assert_eq!(acc.percent(), 75);
}

#[test]
fn empty_range_is_an_error_not_a_division_by_zero() {
    let w: Vec<i64> = vec![4228250625];
    let samples: Vec<(Vec<i32>, Label)> = Vec::new();
    assert_eq!(
        evaluate(ModelKind::Logistic, &w, &samples),
        Err(ClassifierError::EmptyRange)
    );
}

#[test]
fn evaluator_rejects_mismatched_dimensions() {
    let w: Vec<i64> = vec![4228250625, 0];
    let samples: Vec<(Vec<i32>, Label)> = vec![
        (vec![-65025, 65025], Label::Cat),
        (vec![65025], Label::Dog),
    ];
    assert_eq!(
        evaluate(ModelKind::Sign, &w, &samples),
        Err(ClassifierError::DimensionMismatch)
    );
}

#[test]
fn percent_truncates_toward_zero() {
    let w: Vec<i64> = vec![4228250625];
    let samples: Vec<(Vec<i32>, Label)> = vec![
        (vec![-65025], Label::Cat),
        (vec![65025], Label::Cat),
        (vec![65025], Label::Cat),
    ];
    let acc = evaluate(ModelKind::Sign, &w, &samples).expect("evaluation must succeed");
    assert_eq!(acc.correct, 1);
    assert_eq!(acc.total, 3);
    assert_eq!(acc.percent(), 33);
}
