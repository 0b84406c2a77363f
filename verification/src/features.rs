use vstd::prelude::*;

verus! {

// Feature extraction over a decoded grayscale pixel grid, in exact rational
// arithmetic: every feature is stored as an integer numerator over the common
// denominator 65025 (= 255 * 255).
//
// A pixel intensity p in 0..=255 normalizes to 2*p/255 - 1 = (2*p - 255)/255,
// so its numerator over 65025 is 255 * (2*p - 255). A cross term is the
// product of two normalized values, (2*p_i - 255) * (2*p_j - 255) / 65025,
// and the trailing bias term 1 has numerator 65025. The layout is: the P base
// pixels in grid order, then all pairwise products for i <= j < P in row
// order (squares included), then the bias; training and scoring share this
// single extractor, so the layout invariant holds by construction.

/// Denominator shared by every feature numerator.
pub const FEATURE_DEN: i64 = 65025;

/// Numerator of the normalized intensity 2*p/255 - 1, over 65025.
pub open spec fn norm_num(p: u8) -> i32 {
    (255 * (2 * (p as int) - 255)) as i32
}

/// Numerator of the cross term for two pixels, over 65025.
pub open spec fn cross_num(a: u8, b: u8) -> i32 {
    ((2 * (a as int) - 255) * (2 * (b as int) - 255)) as i32
}

/// The base part of the feature vector: one normalized value per pixel.
pub open spec fn base_seq(px: Seq<u8>) -> Seq<i32> {
    Seq::new(px.len(), |i: int| norm_num(px[i]))
}

/// The cross terms still to be emitted once the walk has reached row `i`,
/// column `j` of the upper triangle (squares included).
pub open spec fn cross_from(px: Seq<u8>, i: int, j: int) -> Seq<i32>
    decreases px.len() - i, px.len() - j,
    when 0 <= i <= j
{
    if i >= px.len() {
        Seq::empty()
    } else if j >= px.len() {
        cross_from(px, i + 1, i + 1)
    } else {
        seq![cross_num(px[i], px[j])] + cross_from(px, i, j + 1)
    }
}

/// The whole feature vector: base pixels, upper-triangular cross terms, bias.
pub open spec fn spec_extract(px: Seq<u8>) -> Seq<i32> {
    base_seq(px) + cross_from(px, 0, 0) + seq![65025i32]
}

/// The n-th triangular number.
pub open spec fn tri(n: int) -> int
    decreases n,
{
    if n <= 0 {
        0
    } else {
        n + tri(n - 1)
    }
}

proof fn lemma_tri_double(n: int)
    requires
        n >= 0,
    ensures
        2 * tri(n) == n * (n + 1),
    decreases n,
{
    if n > 0 {
        lemma_tri_double(n - 1);
        assert(tri(n) == n + tri(n - 1));
        assert(2 * tri(n) == 2 * n + (n - 1) * n);
        assert((n - 1) * n + 2 * n == n * (n + 1)) by (nonlinear_arith);
    } else {
        assert(tri(n) == 0);
        assert(n * (n + 1) == 0) by (nonlinear_arith)
            requires
                n == 0,
        ;
    }
}

proof fn lemma_tri_closed(n: int)
    requires
        n >= 0,
    ensures
        tri(n) == n * (n + 1) / 2,
{
    lemma_tri_double(n);
    assert((2 * tri(n)) / 2 == tri(n));
}

proof fn lemma_cross_len(px: Seq<u8>, i: int, j: int)
    requires
        0 <= i <= j <= px.len(),
    ensures
        cross_from(px, i, j).len() == (px.len() - j) + tri(px.len() - i - 1),
    decreases px.len() - i, px.len() - j,
{
    if i >= px.len() {
    } else if j >= px.len() {
        lemma_cross_len(px, i + 1, i + 1);
    } else {
        lemma_cross_len(px, i, j + 1);
    }
}

proof fn lemma_cross_range(px: Seq<u8>, i: int, j: int)
    requires
        0 <= i <= j <= px.len(),
    ensures
        forall|k: int|
            0 <= k < cross_from(px, i, j).len() ==> -65025 <= #[trigger] cross_from(px, i, j)[k]
                <= 65025,
    decreases px.len() - i, px.len() - j,
{
    if i >= px.len() {
    } else if j >= px.len() {
        lemma_cross_range(px, i + 1, i + 1);
        assert(cross_from(px, i, j) == cross_from(px, i + 1, i + 1));
    } else {
        lemma_cross_range(px, i, j + 1);
        let a = 2 * (px[i] as int) - 255;
        let b = 2 * (px[j] as int) - 255;
        assert(-65025 <= a * b <= 65025) by (nonlinear_arith)
            requires
                -255 <= a <= 255,
                -255 <= b <= 255,
        ;
        let rest = cross_from(px, i, j + 1);
        assert(cross_from(px, i, j) == seq![cross_num(px[i], px[j])] + rest);
        assert forall|k: int| 0 <= k < cross_from(px, i, j).len() implies -65025
            <= #[trigger] cross_from(px, i, j)[k] <= 65025 by {
            if k == 0 {
                assert(cross_from(px, i, j)[0] == cross_num(px[i], px[j]));
            } else {
                assert(cross_from(px, i, j)[k] == rest[k - 1]);
            }
        }
    }
}

/// Feature layout: for a grid of P pixels the vector has exactly
/// P + P*(P+1)/2 + 1 entries.
pub proof fn lemma_extract_len(px: Seq<u8>)
    ensures
        spec_extract(px).len() == px.len() + (px.len() * (px.len() + 1)) / 2 + 1,
{
    lemma_cross_len(px, 0, 0);
    lemma_tri_closed(px.len() as int);
    assert(tri(px.len() as int) == (px.len() - 0) + tri(px.len() - 0 - 1) || px.len() == 0);
}

/// Normalization range: every feature numerator lies in [-65025, 65025],
/// that is, every feature value lies in [-1, 1].
pub proof fn lemma_extract_in_range(px: Seq<u8>)
    ensures
        forall|k: int|
            0 <= k < spec_extract(px).len() ==> -65025 <= #[trigger] spec_extract(px)[k] <= 65025,
{
    lemma_cross_range(px, 0, 0);
    assert forall|k: int| 0 <= k < spec_extract(px).len() implies -65025 <= #[trigger] spec_extract(
        px,
    )[k] <= 65025 by {
        if k < base_seq(px).len() {
            assert(spec_extract(px)[k] == norm_num(px[k]));
        } else if k < base_seq(px).len() + cross_from(px, 0, 0).len() {
            assert(spec_extract(px)[k] == cross_from(px, 0, 0)[k - base_seq(px).len()]);
        } else {
            assert(spec_extract(px)[k] == 65025i32);
        }
    }
}

/// Numerator of one normalized pixel, over 65025.
pub fn normalize_pixel(p: u8) -> (r: i32)
    ensures
        r == norm_num(p),
        -65025 <= r <= 65025,
{
    255 * (2 * (p as i32) - 255)
}

/// Maps a decoded grayscale pixel grid to the feature vector: normalized base
/// pixels, all pairwise cross terms for i <= j (squares included) in row
/// order, then the constant bias. Exact, so one grid always gives one vector.
pub fn extract(px: &Vec<u8>) -> (r: Vec<i32>)
    ensures
        r@ == spec_extract(px@),
        r@.len() == px@.len() + (px@.len() * (px@.len() + 1)) / 2 + 1,
        forall|k: int| 0 <= k < r@.len() ==> -65025 <= #[trigger] r@[k] <= 65025,
{
    let p = px.len();
    let mut out: Vec<i32> = Vec::new();
    let mut k: usize = 0;
    while k < p
        invariant
            k <= p,
            p == px@.len(),
            out@.len() == k,
            forall|m: int| 0 <= m < k ==> out@[m] == norm_num(px@[m]),
        decreases p - k,
    {
        out.push(normalize_pixel(px[k]));
        k = k + 1;
    }
    proof {
        assert(out@ =~= base_seq(px@));
    }
    let ghost base = out@;
    let mut i: usize = 0;
    while i < p
        invariant
            i <= p,
            p == px@.len(),
            base == base_seq(px@),
            out@ + cross_from(px@, i as int, i as int) == base + cross_from(px@, 0, 0),
        decreases p - i,
    {
        let mut j: usize = i;
        while j < p
            invariant
                i < p,
                i <= j <= p,
                p == px@.len(),
                base == base_seq(px@),
                out@ + cross_from(px@, i as int, j as int) == base + cross_from(px@, 0, 0),
            decreases p - j,
        {
            let a: i32 = 2 * (px[i] as i32) - 255;
            let b: i32 = 2 * (px[j] as i32) - 255;
            proof {
                assert(-65025 <= (a as int) * (b as int) <= 65025) by (nonlinear_arith)
                    requires
                        -255 <= a as int <= 255,
                        -255 <= b as int <= 255,
                ;
            }
            let ghost out_pre = out@;
            out.push(a * b);
            proof {
                let h = cross_num(px@[i as int], px@[j as int]);
                assert(a * b == h);
                assert(cross_from(px@, i as int, j as int) == seq![h] + cross_from(
                    px@,
                    i as int,
                    j + 1,
                ));
                assert(out@ + cross_from(px@, i as int, j + 1) =~= out_pre + cross_from(
                    px@,
                    i as int,
                    j as int,
                ));
            }
            j = j + 1;
        }
        proof {
            assert(cross_from(px@, i as int, p as int) == cross_from(px@, i + 1, i + 1));
        }
        i = i + 1;
    }
    proof {
        assert(cross_from(px@, p as int, p as int) =~= Seq::<i32>::empty());
        assert(out@ =~= base_seq(px@) + cross_from(px@, 0, 0));
    }
    out.push(65025);
    proof {
        assert(out@ =~= spec_extract(px@));
        lemma_extract_len(px@);
        lemma_extract_in_range(px@);
    }
    out
}

} // verus!
