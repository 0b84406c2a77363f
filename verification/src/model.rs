use vstd::prelude::*;
use crate::{ClassifierError, Label};

verus! {

// The model is a linear score over a feature vector and a weight vector, kept
// in the same exact rational representation as the features: a feature
// numerator is over 65025 and a weight numerator over 65025 * 65025, so the
// score numerator returned here is over 65025 * 65025 * 65025. Both decision
// policies only compare the score against 0, which is exact: the sigmoid is
// monotonic with sigmoid(0) = 1/2, so "probability at least one half" is
// "score at least zero", and the sign policy compares with zero directly.

/// Largest weight-numerator magnitude the scoring arithmetic accepts.
pub const WEIGHT_LIMIT: i64 = 0x10_0000_0000_0000;

/// Largest weight-vector length the scoring arithmetic accepts.
pub const LEN_LIMIT: usize = 0x4000_0000;

/// Which interpretation the model puts on the linear score.
#[derive(Clone, Copy, Debug, PartialEq, Eq, Structural)]
pub enum ModelKind {
    /// Probability sigmoid(score), threshold one half, classes 0 and 1.
    Logistic,
    /// Sign of the score, classes -1 and +1.
    Sign,
}

/// Every weight numerator within the scoring range.
pub open spec fn weights_in_range(w: Seq<i64>) -> bool {
    forall|k: int| 0 <= k < w.len() ==> -WEIGHT_LIMIT <= #[trigger] w[k] <= WEIGHT_LIMIT
}

/// Every feature numerator within the extractor's range.
pub open spec fn features_in_range(x: Seq<i32>) -> bool {
    forall|k: int| 0 <= k < x.len() ==> -65025 <= #[trigger] x[k] <= 65025
}

/// The dot product of the first n weight/feature numerator pairs.
pub open spec fn dot_prefix(w: Seq<i64>, x: Seq<i32>, n: int) -> int
    decreases n,
{
    if n <= 0 {
        0
    } else {
        dot_prefix(w, x, n - 1) + w[n - 1] * x[n - 1]
    }
}

/// The score numerator of a feature vector against a weight vector.
pub open spec fn spec_dot(w: Seq<i64>, x: Seq<i32>) -> int {
    dot_prefix(w, x, w.len() as int)
}

/// The class each policy decides for a given score numerator.
pub open spec fn spec_predict(kind: ModelKind, dot: int) -> Label {
    match kind {
        ModelKind::Logistic => if dot >= 0 {
            Label::Dog
        } else {
            Label::Cat
        },
        ModelKind::Sign => if dot <= 0 {
            Label::Cat
        } else {
            Label::Dog
        },
    }
}

/// Linear score: the exact dot product of the two numerator vectors, over
/// denominator 65025^3. A length mismatch is an error, never a truncation.
pub fn score(w: &Vec<i64>, x: &Vec<i32>) -> (r: Result<i128, ClassifierError>)
    requires
        weights_in_range(w@),
        features_in_range(x@),
        w@.len() <= LEN_LIMIT,
    ensures
        w@.len() == x@.len() ==> (r matches Ok(d) && d == spec_dot(w@, x@)),
        w@.len() != x@.len() ==> r == Err::<i128, ClassifierError>(
            ClassifierError::DimensionMismatch,
        ),
{
    if w.len() != x.len() {
        return Err(ClassifierError::DimensionMismatch);
    }
    let n = w.len();
    let mut acc: i128 = 0;
    let mut k: usize = 0;
    while k < n
        invariant
            k <= n,
            n == w@.len() == x@.len(),
            n <= LEN_LIMIT,
            weights_in_range(w@),
            features_in_range(x@),
            acc == dot_prefix(w@, x@, k as int),
            -(k as int) * 0x100000000000000000 <= acc <= (k as int) * 0x100000000000000000,
        decreases n - k,
    {
        proof {
            assert(-WEIGHT_LIMIT <= w@[k as int] <= WEIGHT_LIMIT);
            assert(-0x100000000000000000 <= (w@[k as int] as int) * (x@[k as int] as int)
                <= 0x100000000000000000) by (nonlinear_arith)
                requires
                    -0x10_0000_0000_0000 <= w@[k as int] <= 0x10_0000_0000_0000,
                    -65025 <= x@[k as int] <= 65025,
            ;
        }
        let t: i128 = (w[k] as i128) * (x[k] as i128);
        acc = acc + t;
        k = k + 1;
    }
    Ok(acc)
}

/// The decision the configured policy takes on a score numerator.
pub fn predict(kind: ModelKind, dot: i128) -> (r: Label)
    ensures
        r == spec_predict(kind, dot as int),
{
    match kind {
        ModelKind::Logistic => if dot >= 0 {
            Label::Dog
        } else {
            Label::Cat
        },
        ModelKind::Sign => if dot <= 0 {
            Label::Cat
        } else {
            Label::Dog
        },
    }
}

/// Scores a feature vector and classifies it under the given policy.
pub fn classify(kind: ModelKind, w: &Vec<i64>, x: &Vec<i32>) -> (r: Result<
    Label,
    ClassifierError,
>)
    requires
        weights_in_range(w@),
        features_in_range(x@),
        w@.len() <= LEN_LIMIT,
    ensures
        w@.len() == x@.len() ==> (r matches Ok(l) && l == spec_predict(kind, spec_dot(w@, x@))),
        w@.len() != x@.len() ==> r == Err::<Label, ClassifierError>(
            ClassifierError::DimensionMismatch,
        ),
{
    match score(w, x) {
        Ok(d) => Ok(predict(kind, d)),
        Err(e) => Err(e),
    }
}

} // verus!
