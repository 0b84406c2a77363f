use vstd::prelude::*;
use crate::Label;
use crate::model::{
    spec_predict, spec_dot, ModelKind, features_in_range, weights_in_range, WEIGHT_LIMIT,
    LEN_LIMIT, score,
};

verus! {

// Training. Weight numerators are over 65025 * 65025 and features over 65025,
// as in the model module; hyperparameters are exact rationals. The batch
// gradient-descent epoch takes the per-sample guesses (the sigmoid values,
// scaled by 65025) as an argument, so the update rule itself is exact integer
// arithmetic: the caller drives the epochs and supplies each epoch's guesses
// computed from the weights this function last returned. The perceptron needs
// no guesses and runs entirely here.

/// Largest noise-weight numerator drawn at initialization: 0.01 scaled by the
/// weight denominator 65025 * 65025, rounded down.
pub const NOISE_LIMIT: i64 = 42282506;

/// The label as the 0/1 target of the probabilistic model.
pub open spec fn label01(y: Label) -> int {
    match y {
        Label::Cat => 0,
        Label::Dog => 1,
    }
}

/// The label as the -1/+1 target of the sign model.
pub open spec fn label_sign(y: Label) -> int {
    match y {
        Label::Cat => -1,
        Label::Dog => 1,
    }
}

/// Division truncated toward zero, as machine integers divide.
pub open spec fn spec_div_trunc(a: int, d: int) -> int {
    if a >= 0 {
        a / d
    } else {
        -((-a) / d)
    }
}

/// Truncated division stays within [-c, c] whenever |a| <= c * d.
proof fn lemma_div_trunc_bound(a: int, d: int, c: int)
    requires
        d >= 1,
        c >= 0,
        -(c * d) <= a <= c * d,
    ensures
        -c <= spec_div_trunc(a, d) <= c,
{
    if a >= 0 {
        vstd::arithmetic::div_mod::lemma_div_is_ordered(a, c * d, d);
        vstd::arithmetic::div_mod::lemma_div_multiples_vanish(c, d);
        assert(c * d == d * c) by (nonlinear_arith);
        vstd::arithmetic::div_mod::lemma_div_pos_is_pos(a, d);
    } else {
        vstd::arithmetic::div_mod::lemma_div_is_ordered(-a, c * d, d);
        vstd::arithmetic::div_mod::lemma_div_multiples_vanish(c, d);
        assert(c * d == d * c) by (nonlinear_arith);
        vstd::arithmetic::div_mod::lemma_div_pos_is_pos(-a, d);
    }
}

/// Divides truncating toward zero, exactly as the update formula specifies.
fn div_trunc(a: i128, d: i128) -> (r: i128)
    requires
        1 <= d,
        -0x40000000000000000000000000000000 <= a <= 0x40000000000000000000000000000000,
    ensures
        r == spec_div_trunc(a as int, d as int),
{
    proof {
        if a >= 0 {
            vstd::arithmetic::div_mod::lemma_div_nonincreasing(a as int, d as int);
            vstd::arithmetic::div_mod::lemma_div_pos_is_pos(a as int, d as int);
        } else {
            vstd::arithmetic::div_mod::lemma_div_nonincreasing(-(a as int), d as int);
            vstd::arithmetic::div_mod::lemma_div_pos_is_pos(-(a as int), d as int);
        }
    }
    if a >= 0 {
        ((a as u128) / (d as u128)) as i128
    } else {
        -((((-a) as u128) / (d as u128)) as i128)
    }
}

/// Hyperparameters of batch gradient descent: epoch count and the learning
/// rate and L2 coefficient as exact rationals no greater than one.
pub struct TrainConfig {
    pub epochs: u32,
    pub eta_num: u32,
    pub eta_den: u32,
    pub lambda_num: u32,
    pub lambda_den: u32,
}

impl TrainConfig {
    /// Rates are at most one and denominators are positive and small.
    pub open spec fn valid(self) -> bool {
        &&& 1 <= self.eta_den <= 0x10000
        &&& self.eta_num <= self.eta_den
        &&& 1 <= self.lambda_den <= 0x10000
        &&& self.lambda_num <= self.lambda_den
    }
}

/// The gradient accumulator at coordinate k after the first n samples:
/// the sum of x_i[k] * (guess_i - y_i), all scaled.
pub open spec fn grad_sum(xs: Seq<Vec<i32>>, gs: Seq<i64>, ys: Seq<Label>, k: int, n: int) -> int
    decreases n,
{
    if n <= 0 {
        0
    } else {
        grad_sum(xs, gs, ys, k, n - 1) + xs[n - 1]@[k] * (gs[n - 1] - 65025 * label01(ys[n - 1]))
    }
}

/// One weight after the regularized update: t - eta * sum / n + eta * lambda * t,
/// each rational product divided with truncation toward zero.
pub open spec fn spec_update_term(t: int, s: int, n: int, cfg: TrainConfig) -> int {
    t - spec_div_trunc(s * (cfg.eta_num as int), (cfg.eta_den as int) * n) + spec_div_trunc(
        t * (cfg.eta_num as int) * (cfg.lambda_num as int),
        (cfg.eta_den as int) * (cfg.lambda_den as int),
    )
}

/// Accumulates the batch gradient over all samples: coordinate k receives
/// the sum over samples i of x_i[k] * (guess_i - label_i), scaled by 65025^2.
pub fn accumulate_gradient(dim: usize, xs: &Vec<Vec<i32>>, gs: &Vec<i64>, ys: &Vec<Label>) -> (r:
    Vec<i64>)
    requires
        xs@.len() == gs@.len(),
        xs@.len() == ys@.len(),
        xs@.len() <= 0x100000,
        forall|i: int| 0 <= i < xs@.len() ==> #[trigger] xs@[i]@.len() == dim,
        forall|i: int| 0 <= i < xs@.len() ==> features_in_range(#[trigger] xs@[i]@),
        forall|i: int| 0 <= i < gs@.len() ==> 0 <= #[trigger] gs@[i] <= 65025,
    ensures
        r@.len() == dim,
        forall|k: int|
            0 <= k < dim ==> #[trigger] r@[k] == grad_sum(xs@, gs@, ys@, k, xs@.len() as int),
        forall|k: int|
            0 <= k < dim ==> -(xs@.len() as int) * 4228250625 <= #[trigger] r@[k] <= (
            xs@.len() as int) * 4228250625,
{
    let mut sums: Vec<i64> = Vec::new();
    let mut k: usize = 0;
    while k < dim
        invariant
            k <= dim,
            sums@.len() == k,
            forall|m: int| 0 <= m < k ==> #[trigger] sums@[m] == 0,
        decreases dim - k,
    {
        sums.push(0);
        k = k + 1;
    }
    let n = xs.len();
    let mut i: usize = 0;
    while i < n
        invariant
            i <= n,
            n == xs@.len(),
            n == gs@.len(),
            n == ys@.len(),
            n <= 0x100000,
            sums@.len() == dim,
            forall|m: int| 0 <= m < xs@.len() ==> #[trigger] xs@[m]@.len() == dim,
            forall|m: int| 0 <= m < xs@.len() ==> features_in_range(#[trigger] xs@[m]@),
            forall|m: int| 0 <= m < gs@.len() ==> 0 <= #[trigger] gs@[m] <= 65025,
            forall|m: int|
                0 <= m < dim ==> #[trigger] sums@[m] == grad_sum(xs@, gs@, ys@, m, i as int),
            forall|m: int|
                0 <= m < dim ==> -(i as int) * 4228250625 <= #[trigger] sums@[m] <= (i as int)
                    * 4228250625,
        decreases n - i,
    {
        let yv: i64 = match ys[i] {
            Label::Cat => 0,
            Label::Dog => 1,
        };
        let g: i64 = gs[i];
        let gy: i64 = g - 65025 * yv;
        proof {
            assert(gy as int == gs@[i as int] - 65025 * label01(ys@[i as int]));
        }
        let xi = &xs[i];
        let mut k2: usize = 0;
        while k2 < dim
            invariant
                k2 <= dim,
                i < n,
                n == xs@.len(),
                n == gs@.len(),
                n == ys@.len(),
                n <= 0x100000,
                sums@.len() == dim,
                xi == &xs@[i as int],
                xi@.len() == dim,
                features_in_range(xi@),
                -65025 <= gy <= 65025,
                gy as int == gs@[i as int] - 65025 * label01(ys@[i as int]),
                forall|m: int|
                    0 <= m < k2 ==> #[trigger] sums@[m] == grad_sum(xs@, gs@, ys@, m, i + 1),
                forall|m: int|
                    k2 <= m < dim ==> #[trigger] sums@[m] == grad_sum(xs@, gs@, ys@, m, i as int),
                forall|m: int|
                    0 <= m < k2 ==> -(i as int) * 4228250625 - 4228250625 <= #[trigger] sums@[m]
                        <= (i as int) * 4228250625 + 4228250625,
                forall|m: int|
                    k2 <= m < dim ==> -(i as int) * 4228250625 <= #[trigger] sums@[m] <= (i as int)
                        * 4228250625,
            decreases dim - k2,
        {
            let xv: i64 = xi[k2] as i64;
            proof {
                assert(-4228250625 <= (xv as int) * (gy as int) <= 4228250625) by (nonlinear_arith)
                    requires
                        -65025 <= xv <= 65025,
                        -65025 <= gy <= 65025,
                ;
            }
            let t: i64 = xv * gy;
            let s0: i64 = sums[k2];
            sums.set(k2, s0 + t);
            k2 = k2 + 1;
        }
        i = i + 1;
    }
    sums
}

/// Applies the regularized batch update to every weight: subtract the
/// averaged, learning-rate-scaled gradient and add back the L2 term.
pub fn apply_update(theta: &Vec<i64>, sums: &Vec<i64>, n: usize, cfg: &TrainConfig) -> (r: Vec<
    i64,
>)
    requires
        theta@.len() == sums@.len(),
        weights_in_range(theta@),
        1 <= n <= 0x100000,
        cfg.valid(),
        forall|k: int|
            0 <= k < sums@.len() ==> -(n as int) * 4228250625 <= #[trigger] sums@[k] <= (n as int)
                * 4228250625,
    ensures
        r@.len() == theta@.len(),
        forall|k: int|
            0 <= k < r@.len() ==> #[trigger] r@[k] == spec_update_term(
                theta@[k] as int,
                sums@[k] as int,
                n as int,
                *cfg,
            ),
        forall|k: int|
            0 <= k < r@.len() ==> -0x40_0000_0000_0000 <= #[trigger] r@[k] <= 0x40_0000_0000_0000,
{
    let mut out: Vec<i64> = Vec::new();
    let mut k: usize = 0;
    while k < theta.len()
        invariant
            k <= theta@.len(),
            theta@.len() == sums@.len(),
            weights_in_range(theta@),
            1 <= n <= 0x100000,
            cfg.valid(),
            forall|m: int|
                0 <= m < sums@.len() ==> -(n as int) * 4228250625 <= #[trigger] sums@[m] <= (
                n as int) * 4228250625,
            out@.len() == k,
            forall|m: int|
                0 <= m < k ==> #[trigger] out@[m] == spec_update_term(
                    theta@[m] as int,
                    sums@[m] as int,
                    n as int,
                    *cfg,
                ),
            forall|m: int|
                0 <= m < k ==> -0x40_0000_0000_0000 <= #[trigger] out@[m] <= 0x40_0000_0000_0000,
        decreases theta@.len() - k,
    {
        let t: i64 = theta[k];
        let s: i64 = sums[k];
        proof {
            assert(-(0x100000 * 4228250625) <= s as int <= 0x100000 * 4228250625);
            assert(-(0x100000 * 4228250625 * 0x10000) <= (s as int) * (cfg.eta_num as int) <=
            0x100000 * 4228250625 * 0x10000) by (nonlinear_arith)
                requires
                    -(0x100000 * 4228250625) <= s as int <= 0x100000 * 4228250625,
                    0 <= cfg.eta_num as int <= 0x10000,
            ;
            assert(1 <= (cfg.eta_den as int) * (n as int) <= 0x10000 * 0x100000)
                by (nonlinear_arith)
                requires
                    1 <= cfg.eta_den as int <= 0x10000,
                    1 <= n as int <= 0x100000,
            ;
            assert(-(4228250625 * ((cfg.eta_den as int) * (n as int))) <= (s as int) * (
            cfg.eta_num as int) <= 4228250625 * ((cfg.eta_den as int) * (n as int)))
                by (nonlinear_arith)
                requires
                    -(n as int) * 4228250625 <= s as int <= (n as int) * 4228250625,
                    0 <= cfg.eta_num as int <= cfg.eta_den as int,
                    1 <= cfg.eta_den as int,
                    1 <= n as int,
            ;
            lemma_div_trunc_bound(
                (s as int) * (cfg.eta_num as int),
                (cfg.eta_den as int) * (n as int),
                4228250625,
            );
        }
        let a_num: i128 = (s as i128) * (cfg.eta_num as i128);
        let a_den: i128 = (cfg.eta_den as i128) * (n as i128);
        let a: i128 = div_trunc(a_num, a_den);
        proof {
            assert(-(0x10_0000_0000_0000 * 0x10000) <= (t as int) * (cfg.eta_num as int)
                <= 0x10_0000_0000_0000 * 0x10000) by (nonlinear_arith)
                requires
                    -0x10_0000_0000_0000 <= t as int <= 0x10_0000_0000_0000,
                    0 <= cfg.eta_num as int <= 0x10000,
            ;
            assert(-(0x10_0000_0000_0000 * 0x10000 * 0x10000) <= (t as int) * (cfg.eta_num as int)
                * (cfg.lambda_num as int) <= 0x10_0000_0000_0000 * 0x10000 * 0x10000)
                by (nonlinear_arith)
                requires
                    -0x10_0000_0000_0000 <= t as int <= 0x10_0000_0000_0000,
                    0 <= cfg.eta_num as int <= 0x10000,
                    0 <= cfg.lambda_num as int <= 0x10000,
            ;
            assert(1 <= (cfg.eta_den as int) * (cfg.lambda_den as int) <= 0x10000 * 0x10000)
                by (nonlinear_arith)
                requires
                    1 <= cfg.eta_den as int <= 0x10000,
                    1 <= cfg.lambda_den as int <= 0x10000,
            ;
            assert(-((WEIGHT_LIMIT as int) * ((cfg.eta_den as int) * (cfg.lambda_den as int))) <= (
            t as int) * (cfg.eta_num as int) * (cfg.lambda_num as int) <= (WEIGHT_LIMIT as int) * ((
            cfg.eta_den as int) * (cfg.lambda_den as int))) by (nonlinear_arith)
                requires
                    -(WEIGHT_LIMIT as int) <= t as int <= WEIGHT_LIMIT as int,
                    0 <= cfg.eta_num as int <= cfg.eta_den as int,
                    0 <= cfg.lambda_num as int <= cfg.lambda_den as int,
                    1 <= cfg.eta_den as int,
                    1 <= cfg.lambda_den as int,
            ;
            lemma_div_trunc_bound(
                (t as int) * (cfg.eta_num as int) * (cfg.lambda_num as int),
                (cfg.eta_den as int) * (cfg.lambda_den as int),
                WEIGHT_LIMIT as int,
            );
        }
        let b_num: i128 = (t as i128) * (cfg.eta_num as i128) * (cfg.lambda_num as i128);
        let b_den: i128 = (cfg.eta_den as i128) * (cfg.lambda_den as i128);
        let b: i128 = div_trunc(b_num, b_den);
        let v: i128 = (t as i128) - a + b;
        out.push(v as i64);
        k = k + 1;
    }
    out
}

/// One full epoch of batch gradient descent: accumulate the gradient over
/// every sample with the supplied guesses, then update every weight. The
/// result is exactly the update formula applied to the inputs.
pub fn logistic_epoch_update(
    theta: &Vec<i64>,
    xs: &Vec<Vec<i32>>,
    gs: &Vec<i64>,
    ys: &Vec<Label>,
    cfg: &TrainConfig,
) -> (r: Vec<i64>)
    requires
        xs@.len() == gs@.len(),
        xs@.len() == ys@.len(),
        1 <= xs@.len() <= 0x100000,
        forall|i: int| 0 <= i < xs@.len() ==> #[trigger] xs@[i]@.len() == theta@.len(),
        forall|i: int| 0 <= i < xs@.len() ==> features_in_range(#[trigger] xs@[i]@),
        forall|i: int| 0 <= i < gs@.len() ==> 0 <= #[trigger] gs@[i] <= 65025,
        weights_in_range(theta@),
        cfg.valid(),
    ensures
        r@.len() == theta@.len(),
        forall|k: int|
            0 <= k < r@.len() ==> #[trigger] r@[k] == spec_update_term(
                theta@[k] as int,
                grad_sum(xs@, gs@, ys@, k, xs@.len() as int),
                xs@.len() as int,
                *cfg,
            ),
        forall|k: int|
            0 <= k < r@.len() ==> -0x40_0000_0000_0000 <= #[trigger] r@[k] <= 0x40_0000_0000_0000,
{
    let sums = accumulate_gradient(theta.len(), xs, gs, ys);
    apply_update(theta, &sums, xs.len(), cfg)
}

/// The weights after one mistake-driven correction: each coordinate moves by
/// the label times the feature, scaled to the weight denominator.
pub open spec fn p_update(theta: Seq<i64>, x: Seq<i32>, y: Label) -> Seq<i64> {
    Seq::new(theta.len(), |k: int| (theta[k] + label_sign(y) * x[k] * 65025) as i64)
}

/// One perceptron step: the weights change only on a misclassified sample.
pub open spec fn p_step(theta: Seq<i64>, x: Seq<i32>, y: Label) -> Seq<i64> {
    if spec_predict(ModelKind::Sign, spec_dot(theta, x)) == y {
        theta
    } else {
        p_update(theta, x, y)
    }
}

/// The weights after one pass over the first n samples.
pub open spec fn p_pass_theta(theta: Seq<i64>, xs: Seq<Vec<i32>>, ys: Seq<Label>, n: int) -> Seq<
    i64,
>
    decreases n,
{
    if n <= 0 {
        theta
    } else {
        p_step(p_pass_theta(theta, xs, ys, n - 1), xs[n - 1]@, ys[n - 1])
    }
}

/// How many of the first n samples the evolving weights misclassified.
pub open spec fn p_pass_mistakes(theta: Seq<i64>, xs: Seq<Vec<i32>>, ys: Seq<Label>, n: int) -> int
    decreases n,
{
    if n <= 0 {
        0
    } else {
        p_pass_mistakes(theta, xs, ys, n - 1) + (if spec_predict(
            ModelKind::Sign,
            spec_dot(p_pass_theta(theta, xs, ys, n - 1), xs[n - 1]@),
        ) == ys[n - 1] {
            0int
        } else {
            1int
        })
    }
}

proof fn lemma_pass_mistakes_nonneg(theta: Seq<i64>, xs: Seq<Vec<i32>>, ys: Seq<Label>, n: int)
    ensures
        0 <= p_pass_mistakes(theta, xs, ys, n),
    decreases n,
{
    if n > 0 {
        lemma_pass_mistakes_nonneg(theta, xs, ys, n - 1);
    }
}

/// A pass makes no mistake exactly when the weights it started from already
/// classify every sample correctly, and such a pass leaves them unchanged.
pub proof fn lemma_mistake_free_pass(theta: Seq<i64>, xs: Seq<Vec<i32>>, ys: Seq<Label>, n: int)
    requires
        0 <= n <= xs.len(),
        xs.len() == ys.len(),
    ensures
        (p_pass_mistakes(theta, xs, ys, n) == 0) <==> (forall|i: int|
            0 <= i < n ==> spec_predict(ModelKind::Sign, spec_dot(theta, #[trigger] xs[i]@))
                == ys[i]),
        p_pass_mistakes(theta, xs, ys, n) == 0 ==> p_pass_theta(theta, xs, ys, n) == theta,
    decreases n,
{
    if n > 0 {
        lemma_mistake_free_pass(theta, xs, ys, n - 1);
        lemma_pass_mistakes_nonneg(theta, xs, ys, n - 1);
        if p_pass_mistakes(theta, xs, ys, n) == 0 {
            assert(p_pass_mistakes(theta, xs, ys, n - 1) == 0);
            assert(p_pass_theta(theta, xs, ys, n - 1) == theta);
        }
        if forall|i: int|
            0 <= i < n ==> spec_predict(ModelKind::Sign, spec_dot(theta, #[trigger] xs[i]@))
                == ys[i] {
            assert(p_pass_mistakes(theta, xs, ys, n - 1) == 0);
            assert(p_pass_theta(theta, xs, ys, n - 1) == theta);
            assert(spec_predict(ModelKind::Sign, spec_dot(theta, xs[n - 1]@)) == ys[n - 1]);
            assert(p_pass_theta(theta, xs, ys, n) == p_step(theta, xs[n - 1]@, ys[n - 1]));
        }
    }
}

/// One single online perceptron pass over the samples, in order: classify by
/// the sign of the score, and on each mistake add the labelled sample to the
/// weights. Returns the updated weights and the number of mistakes made.
pub fn perceptron_pass(theta: Vec<i64>, xs: &Vec<Vec<i32>>, ys: &Vec<Label>) -> (r: (Vec<i64>, usize))
    requires
        theta@.len() <= LEN_LIMIT,
        xs@.len() == ys@.len(),
        xs@.len() <= 0x40000,
        forall|i: int| 0 <= i < xs@.len() ==> #[trigger] xs@[i]@.len() == theta@.len(),
        forall|i: int| 0 <= i < xs@.len() ==> features_in_range(#[trigger] xs@[i]@),
        forall|k: int|
            0 <= k < theta@.len() ==> -0x4_0000_0000_0000 <= #[trigger] theta@[k]
                <= 0x4_0000_0000_0000,
    ensures
        r.0@ == p_pass_theta(theta@, xs@, ys@, xs@.len() as int),
        r.1 as int == p_pass_mistakes(theta@, xs@, ys@, xs@.len() as int),
        r.1 <= xs@.len(),
        r.0@.len() == theta@.len(),
        weights_in_range(r.0@),
{
    let ghost theta0 = theta@;
    let mut t = theta;
    let mut m: usize = 0;
    let n = xs.len();
    let mut i: usize = 0;
    while i < n
        invariant
            i <= n,
            n == xs@.len(),
            n == ys@.len(),
            n <= 0x40000,
            t@.len() == theta0.len(),
            theta0.len() <= LEN_LIMIT,
            forall|q: int| 0 <= q < xs@.len() ==> #[trigger] xs@[q]@.len() == theta0.len(),
            forall|q: int| 0 <= q < xs@.len() ==> features_in_range(#[trigger] xs@[q]@),
            t@ == p_pass_theta(theta0, xs@, ys@, i as int),
            m as int == p_pass_mistakes(theta0, xs@, ys@, i as int),
            m <= i,
            forall|k: int|
                0 <= k < t@.len() ==> -(0x4_0000_0000_0000 + (i as int) * 4228250625)
                    <= #[trigger] t@[k] <= 0x4_0000_0000_0000 + (i as int) * 4228250625,
        decreases n - i,
    {
        proof {
            assert forall|k: int| 0 <= k < t@.len() implies -WEIGHT_LIMIT <= #[trigger] t@[k]
                <= WEIGHT_LIMIT by {
                assert(-(0x4_0000_0000_0000 + (i as int) * 4228250625) <= t@[k]
                    <= 0x4_0000_0000_0000 + (i as int) * 4228250625);
            }
        }
        let xi = &xs[i];
        let d: i128 = match score(&t, xi) {
            Ok(d) => d,
            Err(_) => {
                proof {
                    assert(false);
                }
                0
            },
        };
        let pred = crate::model::predict(ModelKind::Sign, d);
        let y = ys[i];
        if pred != y {
            m = m + 1;
            let s: i64 = match y {
                Label::Cat => -1,
                Label::Dog => 1,
            };
            let ghost t_pre = t@;
            let mut k: usize = 0;
            while k < t.len()
                invariant
                    k <= t@.len(),
                    t@.len() == t_pre.len(),
                    i < n,
                    n == xs@.len(),
                    n == ys@.len(),
                    n <= 0x40000,
                    xi == &xs@[i as int],
                    xi@.len() == t_pre.len(),
                    features_in_range(xi@),
                    y == ys@[i as int],
                    s as int == label_sign(ys@[i as int]),
                    forall|q: int|
                        0 <= q < t_pre.len() ==> -(0x4_0000_0000_0000 + (i as int) * 4228250625)
                            <= #[trigger] t_pre[q] <= 0x4_0000_0000_0000 + (i as int) * 4228250625,
                    forall|q: int|
                        0 <= q < k ==> #[trigger] t@[q] == (t_pre[q] + label_sign(ys@[i as int])
                            * xi@[q] * 65025) as i64,
                    forall|q: int| k <= q < t_pre.len() ==> #[trigger] t@[q] == t_pre[q],
                decreases t_pre.len() - k,
            {
                let xv: i64 = xi[k] as i64;
                proof {
                    assert(-4228250625 <= (s as int) * (xv as int) * 65025 <= 4228250625)
                        by (nonlinear_arith)
                        requires
                            s as int == 1 || s as int == -1,
                            -65025 <= xv as int <= 65025,
                    ;
                }
                let delta: i64 = s * xv * 65025;
                let cur: i64 = t[k];
                t.set(k, cur + delta);
                k = k + 1;
            }
            proof {
                assert(t@ =~= p_update(t_pre, xi@, ys@[i as int]));
            }
        }
        proof {
            assert(t@ == p_pass_theta(theta0, xs@, ys@, i + 1));
            assert(m as int == p_pass_mistakes(theta0, xs@, ys@, i + 1));
        }
        i = i + 1;
    }
    (t, m)
}

/// Relies on rand::random_range: a uniform draw from a non-empty range, whose
/// result lies within that range.
#[verifier::external_body]
fn sample_noise() -> (r: i64)
    ensures
        -NOISE_LIMIT <= r <= NOISE_LIMIT,
{
    rand::random_range(-NOISE_LIMIT..=NOISE_LIMIT)
}

/// Fresh weights before training: independent uniform noise of magnitude at
/// most 0.01, to break the symmetry between the quadratic features.
pub fn init_theta(len: usize) -> (r: Vec<i64>)
    ensures
        r@.len() == len,
        forall|k: int| 0 <= k < len ==> -NOISE_LIMIT <= #[trigger] r@[k] <= NOISE_LIMIT,
        weights_in_range(r@),
{
    let mut out: Vec<i64> = Vec::new();
    let mut k: usize = 0;
    while k < len
        invariant
            k <= len,
            out@.len() == k,
            forall|m: int| 0 <= m < k ==> -NOISE_LIMIT <= #[trigger] out@[m] <= NOISE_LIMIT,
        decreases len - k,
    {
        out.push(sample_noise());
        k = k + 1;
    }
    out
}

} // verus!
