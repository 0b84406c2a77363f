use vstd::prelude::*;
use crate::{ClassifierError, Label};
use crate::model::{
    spec_predict, spec_dot, ModelKind, features_in_range, weights_in_range, LEN_LIMIT, score,
    predict,
};

verus! {

// Evaluation: apply the model to every held-out sample, compare the decision
// with the known label, and report how many matched. An empty range is an
// error, never a silent division by zero.

/// How many of the first n samples the model classifies correctly.
pub open spec fn count_correct(
    kind: ModelKind,
    w: Seq<i64>,
    samples: Seq<(Vec<i32>, Label)>,
    n: int,
) -> int
    decreases n,
{
    if n <= 0 {
        0
    } else {
        count_correct(kind, w, samples, n - 1) + (if spec_predict(
            kind,
            spec_dot(w, samples[n - 1].0@),
        ) == samples[n - 1].1 {
            1int
        } else {
            0int
        })
    }
}

/// A model that decides every one of the first n samples correctly counts
/// all n of them: a perfect model evaluates to full accuracy.
pub proof fn lemma_perfect_model(
    kind: ModelKind,
    w: Seq<i64>,
    samples: Seq<(Vec<i32>, Label)>,
    n: int,
)
    requires
        0 <= n <= samples.len(),
        forall|i: int|
            0 <= i < n ==> spec_predict(kind, spec_dot(w, #[trigger] samples[i].0@))
                == samples[i].1,
    ensures
        count_correct(kind, w, samples, n) == n,
    decreases n,
{
    if n > 0 {
        lemma_perfect_model(kind, w, samples, n - 1);
    }
}

/// Every sample's feature vector has the weight vector's length.
pub open spec fn dims_ok(w: Seq<i64>, samples: Seq<(Vec<i32>, Label)>) -> bool {
    forall|i: int| 0 <= i < samples.len() ==> #[trigger] samples[i].0@.len() == w.len()
}

/// An evaluation outcome: how many decisions matched, out of how many.
#[derive(Clone, Copy, Debug, PartialEq, Eq, Structural)]
pub struct Accuracy {
    pub correct: usize,
    pub total: usize,
}

impl Accuracy {
    /// The accuracy as a whole percentage, truncated.
    pub fn percent(&self) -> (r: u64)
        requires
            self.correct <= self.total,
            self.total >= 1,
        ensures
            r as int == (self.correct as int) * 100 / (self.total as int),
            r <= 100,
    {
        let c: u128 = self.correct as u128;
        let t: u128 = self.total as u128;
        let q: u128 = (c * 100) / t;
        proof {
            vstd::arithmetic::div_mod::lemma_div_is_ordered(
                (c as int) * 100,
                (t as int) * 100,
                t as int,
            );
            vstd::arithmetic::div_mod::lemma_div_multiples_vanish(100, t as int);
            vstd::arithmetic::div_mod::lemma_div_pos_is_pos((c as int) * 100, t as int);
        }
        q as u64
    }
}

/// Scores every sample and counts the decisions that match the known labels.
/// An empty sample range is an error; so is any feature vector whose length
/// differs from the weight vector's.
pub fn evaluate(kind: ModelKind, w: &Vec<i64>, samples: &Vec<(Vec<i32>, Label)>) -> (r: Result<
    Accuracy,
    ClassifierError,
>)
    requires
        weights_in_range(w@),
        w@.len() <= LEN_LIMIT,
        forall|i: int| 0 <= i < samples@.len() ==> features_in_range(#[trigger] samples@[i].0@),
    ensures
        samples@.len() == 0 <==> r == Err::<Accuracy, ClassifierError>(ClassifierError::EmptyRange),
        (samples@.len() > 0 && !dims_ok(w@, samples@)) <==> r == Err::<Accuracy, ClassifierError>(
            ClassifierError::DimensionMismatch,
        ),
        (samples@.len() > 0 && dims_ok(w@, samples@)) ==> (r matches Ok(a) && a.correct as int
            == count_correct(kind, w@, samples@, samples@.len() as int) && a.total == samples@.len()
            && a.correct <= a.total),
{
    if samples.len() == 0 {
        return Err(ClassifierError::EmptyRange);
    }
    let n = samples.len();
    let mut correct: usize = 0;
    let mut i: usize = 0;
    while i < n
        invariant
            i <= n,
            n == samples@.len(),
            weights_in_range(w@),
            w@.len() <= LEN_LIMIT,
            forall|q: int| 0 <= q < samples@.len() ==> features_in_range(#[trigger] samples@[q].0@),
            forall|q: int| 0 <= q < i ==> #[trigger] samples@[q].0@.len() == w@.len(),
            correct as int == count_correct(kind, w@, samples@, i as int),
            correct <= i,
        decreases n - i,
    {
        let sample = &samples[i];
        let x = &sample.0;
        let y = sample.1;
        if x.len() != w.len() {
            return Err(ClassifierError::DimensionMismatch);
        }
        let d: i128 = match score(w, x) {
            Ok(d) => d,
            Err(_) => {
                proof {
                    assert(false);
                }
                0
            },
        };
        let pred = predict(kind, d);
        if pred == y {
            correct = correct + 1;
        }
        i = i + 1;
    }
    Ok(Accuracy { correct, total: n })
}

} // verus!
