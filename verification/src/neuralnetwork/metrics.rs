//! Error metrics over batched fixed-point matrices: the mean squared
//! error of a batch, and the mean absolute error of a time series of
//! batches.

use crate::fixed::{fp_mul, fp_mul_spec, VAL_LIMIT};
use crate::neuralnetwork::linalgebra::{mat_in, vec_in};
use vstd::arithmetic::div_mod::lemma_div_pos_is_pos;
use vstd::prelude::*;

verus! {

/// Largest value one rescaled squared difference of in-range scalars can
/// carry: `(2 * VAL_LIMIT)^2 / SCALE`.
pub const SQ_LIMIT: i64 = 4_000_000_000_000;

/// Largest magnitude one absolute difference of in-range scalars can
/// carry: `2 * VAL_LIMIT`.
pub const AD_LIMIT: i64 = 2_000_000_000;

/// Largest number of elements the metrics accept in one call.
pub const COUNT_LIMIT: usize = 1_000_000;

/// Sum of the rescaled squared differences of two equally long rows.
pub open spec fn row_sse(t: Seq<i64>, p: Seq<i64>) -> int
    decreases t.len(),
{
    if t.len() == 0 || p.len() == 0 {
        0
    } else {
        row_sse(t.drop_last(), p.drop_last()) + fp_mul_spec(
            t.last() - p.last(),
            t.last() - p.last(),
        )
    }
}

/// Sum of the rescaled squared differences over a whole batch.
pub open spec fn mat_sse(t: Seq<Vec<i64>>, p: Seq<Vec<i64>>) -> int
    decreases t.len(),
{
    if t.len() == 0 || p.len() == 0 {
        0
    } else {
        mat_sse(t.drop_last(), p.drop_last()) + row_sse(t.last()@, p.last()@)
    }
}

/// Number of scalar elements in a batch.
pub open spec fn mat_count(t: Seq<Vec<i64>>) -> int
    decreases t.len(),
{
    if t.len() == 0 {
        0
    } else {
        mat_count(t.drop_last()) + t.last()@.len()
    }
}

/// Sum of the absolute differences of two equally long rows.
pub open spec fn row_sad(t: Seq<i64>, p: Seq<i64>) -> int
    decreases t.len(),
{
    if t.len() == 0 || p.len() == 0 {
        0
    } else {
        row_sad(t.drop_last(), p.drop_last()) + abs_diff(t.last() as int, p.last() as int)
    }
}

/// Sum of the absolute differences over a whole batch.
pub open spec fn mat_sad(t: Seq<Vec<i64>>, p: Seq<Vec<i64>>) -> int
    decreases t.len(),
{
    if t.len() == 0 || p.len() == 0 {
        0
    } else {
        mat_sad(t.drop_last(), p.drop_last()) + row_sad(t.last()@, p.last()@)
    }
}

/// Sum of the absolute differences over a time series of batches.
pub open spec fn cube_sad(t: Seq<Vec<Vec<i64>>>, p: Seq<Vec<Vec<i64>>>) -> int
    decreases t.len(),
{
    if t.len() == 0 || p.len() == 0 {
        0
    } else {
        cube_sad(t.drop_last(), p.drop_last()) + mat_sad(t.last()@, p.last()@)
    }
}

/// Number of scalar elements in a time series of batches.
pub open spec fn cube_count(t: Seq<Vec<Vec<i64>>>) -> int
    decreases t.len(),
{
    if t.len() == 0 {
        0
    } else {
        cube_count(t.drop_last()) + mat_count(t.last()@)
    }
}

/// The absolute difference of two integers.
pub open spec fn abs_diff(a: int, b: int) -> int {
    if a >= b {
        a - b
    } else {
        b - a
    }
}

/// Extending both rows by one element adds one squared difference.
proof fn lemma_row_sse_step(t: Seq<i64>, p: Seq<i64>, k: int)
    requires
        0 <= k < t.len(),
        k < p.len(),
    ensures
        row_sse(t.take(k + 1), p.take(k + 1)) == row_sse(t.take(k), p.take(k)) + fp_mul_spec(
            t[k] - p[k],
            t[k] - p[k],
        ),
{
    assert(t.take(k + 1).drop_last() =~= t.take(k));
    assert(p.take(k + 1).drop_last() =~= p.take(k));
}

/// Extending both batches by one row adds that row's squared differences.
proof fn lemma_mat_sse_step(t: Seq<Vec<i64>>, p: Seq<Vec<i64>>, i: int)
    requires
        0 <= i < t.len(),
        i < p.len(),
    ensures
        mat_sse(t.take(i + 1), p.take(i + 1)) == mat_sse(t.take(i), p.take(i)) + row_sse(
            t[i]@,
            p[i]@,
        ),
{
    assert(t.take(i + 1).drop_last() =~= t.take(i));
    assert(p.take(i + 1).drop_last() =~= p.take(i));
}

/// Extending a batch by one row adds that row's length to the count.
proof fn lemma_mat_count_step(t: Seq<Vec<i64>>, i: int)
    requires
        0 <= i < t.len(),
    ensures
        mat_count(t.take(i + 1)) == mat_count(t.take(i)) + t[i]@.len(),
{
    assert(t.take(i + 1).drop_last() =~= t.take(i));
}

/// Counts of prefixes grow with the prefix.
proof fn lemma_mat_count_mono(t: Seq<Vec<i64>>, i: int, j: int)
    requires
        0 <= i <= j <= t.len(),
    ensures
        mat_count(t.take(i)) <= mat_count(t.take(j)),
    decreases j - i,
{
    if i < j {
        lemma_mat_count_mono(t, i, j - 1);
        lemma_mat_count_step(t, j - 1);
    }
}

/// Counts are never negative.
proof fn lemma_mat_count_nonneg(t: Seq<Vec<i64>>, i: int)
    requires
        0 <= i <= t.len(),
    ensures
        0 <= mat_count(t.take(i)),
    decreases i,
{
    if i > 0 {
        lemma_mat_count_nonneg(t, i - 1);
        lemma_mat_count_step(t, i - 1);
    }
}

/// The mean rescaled squared difference between a target batch and a
/// prediction batch of the same shape: the sum of elementwise squared
/// errors, divided (with truncation) by the number of elements.
#[verifier::loop_isolation(false)]
pub fn calculate_mse(target: &Vec<Vec<i64>>, prediction: &Vec<Vec<i64>>) -> (r: i64)
    requires
        target@.len() == prediction@.len(),
        forall|i: int|
            0 <= i < target@.len() ==> (#[trigger] target@[i])@.len() == (
            #[trigger] prediction@[i])@.len(),
        mat_in(target@, VAL_LIMIT as int),
        mat_in(prediction@, VAL_LIMIT as int),
        1 <= mat_count(target@) <= COUNT_LIMIT,
    ensures
        r == mat_sse(target@, prediction@) / mat_count(target@),
{
    proof {
        assert(target@.take(target@.len() as int) =~= target@);
        assert(prediction@.take(target@.len() as int) =~= prediction@);
    }
    let mut acc: i64 = 0;
    let mut cnt: usize = 0;
    let mut i: usize = 0;
    while i < target.len()
        invariant
            0 <= i <= target@.len(),
            cnt == mat_count(target@.take(i as int)),
            cnt <= COUNT_LIMIT,
            acc == mat_sse(target@.take(i as int), prediction@.take(i as int)),
            0 <= acc <= cnt * (SQ_LIMIT as int),
        decreases target@.len() - i,
    {
        let trow = &target[i];
        let prow = &prediction[i];
        proof {
            lemma_mat_count_step(target@, i as int);
            lemma_mat_count_mono(target@, i + 1, target@.len() as int);
            assert(trow@.take(0) =~= Seq::<i64>::empty());
            assert(prow@.take(0) =~= Seq::<i64>::empty());
        }
        let mut k: usize = 0;
        while k < trow.len()
            invariant
                0 <= k <= trow@.len(),
                cnt + trow@.len() <= COUNT_LIMIT,
                acc == mat_sse(target@.take(i as int), prediction@.take(i as int)) + row_sse(
                    trow@.take(k as int),
                    prow@.take(k as int),
                ),
                0 <= acc <= (cnt + k) * (SQ_LIMIT as int),
            decreases trow@.len() - k,
        {
            let d: i64 = trow[k] - prow[k];
            proof {
                lemma_row_sse_step(trow@, prow@, k as int);
                assert(0 <= (d as int) * (d as int) <= (AD_LIMIT as int) * (AD_LIMIT as int))
                    by (nonlinear_arith)
                    requires
                        -AD_LIMIT <= d <= AD_LIMIT,
                ;
                crate::fixed::lemma_tdiv_mag((d as int) * (d as int), (AD_LIMIT as int) * (
                AD_LIMIT as int), 1_000_000);
                lemma_div_pos_is_pos((d as int) * (d as int), 1_000_000);
            }
            acc = acc + fp_mul(d, d);
            k = k + 1;
        }
        proof {
            assert(trow@.take(trow@.len() as int) =~= trow@);
            assert(prow@.take(trow@.len() as int) =~= prow@);
            lemma_mat_sse_step(target@, prediction@, i as int);
        }
        cnt = cnt + trow.len();
        i = i + 1;
    }
    acc / (cnt as i64)
}

/// Three-dimensional shape agreement and bounds for a time series of
/// batches.
pub open spec fn cube_matches(t: Seq<Vec<Vec<i64>>>, p: Seq<Vec<Vec<i64>>>) -> bool {
    &&& t.len() == p.len()
    &&& forall|i: int| 0 <= i < t.len() ==> (#[trigger] t[i])@.len() == (#[trigger] p[i])@.len()
    &&& forall|i: int, j: int|
        0 <= i < t.len() && 0 <= j < t[i]@.len() ==> ((#[trigger] t[i]@[j])@.len() == (
        #[trigger] p[i]@[j])@.len())
}

/// Every element of a time series lies within `[-b, b]`.
pub open spec fn cube_in(t: Seq<Vec<Vec<i64>>>, b: int) -> bool {
    forall|i: int| 0 <= i < t.len() ==> mat_in((#[trigger] t[i])@, b)
}

/// The mean absolute difference between a target time series and a
/// prediction time series of the same shape: the sum of elementwise
/// absolute errors, divided (with truncation) by the number of elements.
#[verifier::loop_isolation(false)]
pub fn calculate_mse_time_series(target: &Vec<Vec<Vec<i64>>>, prediction: &Vec<Vec<Vec<i64>>>) -> (
    r: i64)
    requires
        cube_matches(target@, prediction@),
        cube_in(target@, VAL_LIMIT as int),
        cube_in(prediction@, VAL_LIMIT as int),
        1 <= cube_count(target@) <= COUNT_LIMIT,
    ensures
        r == cube_sad(target@, prediction@) / cube_count(target@),
{
    proof {
        assert(target@.take(target@.len() as int) =~= target@);
        assert(prediction@.take(target@.len() as int) =~= prediction@);
    }
    let mut acc: i64 = 0;
    let mut cnt: usize = 0;
    let mut s: usize = 0;
    while s < target.len()
        invariant
            0 <= s <= target@.len(),
            cnt == cube_count(target@.take(s as int)),
            cnt <= COUNT_LIMIT,
            acc == cube_sad(target@.take(s as int), prediction@.take(s as int)),
            0 <= acc <= cnt * (AD_LIMIT as int),
        decreases target@.len() - s,
    {
        let tm = &target[s];
        let pm = &prediction[s];
        proof {
            lemma_cube_count_step(target@, s as int);
            lemma_cube_count_mono(target@, s + 1, target@.len() as int);
            lemma_mat_count_nonneg(tm@, tm@.len() as int);
            assert(tm@.take(tm@.len() as int) =~= tm@);
            assert(tm@.take(0) =~= Seq::<Vec<i64>>::empty());
            assert(pm@.take(0) =~= Seq::<Vec<i64>>::empty());
        }
        let mut i: usize = 0;
        let mut mcnt: usize = 0;
        while i < tm.len()
            invariant
                0 <= i <= tm@.len(),
                mcnt == mat_count(tm@.take(i as int)),
                cnt + mat_count(tm@) <= COUNT_LIMIT,
                mat_count(tm@.take(i as int)) <= mat_count(tm@),
                acc == cube_sad(target@.take(s as int), prediction@.take(s as int)) + mat_sad(
                    tm@.take(i as int),
                    pm@.take(i as int),
                ),
                0 <= acc <= (cnt + mcnt) * (AD_LIMIT as int),
            decreases tm@.len() - i,
        {
            let trow = &tm[i];
            let prow = &pm[i];
            proof {
                lemma_mat_count_step(tm@, i as int);
                lemma_mat_count_mono(tm@, i + 1, tm@.len() as int);
                assert(trow@.take(0) =~= Seq::<i64>::empty());
                assert(prow@.take(0) =~= Seq::<i64>::empty());
            }
            let mut k: usize = 0;
            while k < trow.len()
                invariant
                    0 <= k <= trow@.len(),
                    cnt + mcnt + trow@.len() <= COUNT_LIMIT,
                    acc == cube_sad(target@.take(s as int), prediction@.take(s as int)) + mat_sad(
                        tm@.take(i as int),
                        pm@.take(i as int),
                    ) + row_sad(trow@.take(k as int), prow@.take(k as int)),
                    0 <= acc <= (cnt + mcnt + k) * (AD_LIMIT as int),
                decreases trow@.len() - k,
            {
                proof {
                    lemma_row_sad_step(trow@, prow@, k as int);
                }
                let d: i64 = trow[k] - prow[k];
                let ad: i64 = if d >= 0 {
                    d
                } else {
                    -d
                };
                acc = acc + ad;
                k = k + 1;
            }
            proof {
                assert(trow@.take(trow@.len() as int) =~= trow@);
                assert(prow@.take(trow@.len() as int) =~= prow@);
                lemma_mat_sad_step(tm@, pm@, i as int);
            }
            mcnt = mcnt + trow.len();
            i = i + 1;
        }
        proof {
            assert(tm@.take(tm@.len() as int) =~= tm@);
            assert(pm@.take(tm@.len() as int) =~= pm@);
            lemma_cube_sad_step(target@, prediction@, s as int);
        }
        cnt = cnt + mcnt;
        s = s + 1;
    }
    acc / (cnt as i64)
}

/// Extending both rows by one element adds one absolute difference.
proof fn lemma_row_sad_step(t: Seq<i64>, p: Seq<i64>, k: int)
    requires
        0 <= k < t.len(),
        k < p.len(),
    ensures
        row_sad(t.take(k + 1), p.take(k + 1)) == row_sad(t.take(k), p.take(k)) + abs_diff(
            t[k] as int,
            p[k] as int,
        ),
{
    assert(t.take(k + 1).drop_last() =~= t.take(k));
    assert(p.take(k + 1).drop_last() =~= p.take(k));
}

/// Extending both batches by one row adds that row's absolute
/// differences.
proof fn lemma_mat_sad_step(t: Seq<Vec<i64>>, p: Seq<Vec<i64>>, i: int)
    requires
        0 <= i < t.len(),
        i < p.len(),
    ensures
        mat_sad(t.take(i + 1), p.take(i + 1)) == mat_sad(t.take(i), p.take(i)) + row_sad(
            t[i]@,
            p[i]@,
        ),
{
    assert(t.take(i + 1).drop_last() =~= t.take(i));
    assert(p.take(i + 1).drop_last() =~= p.take(i));
}

/// Extending both series by one batch adds that batch's absolute
/// differences.
proof fn lemma_cube_sad_step(t: Seq<Vec<Vec<i64>>>, p: Seq<Vec<Vec<i64>>>, s: int)
    requires
        0 <= s < t.len(),
        s < p.len(),
    ensures
        cube_sad(t.take(s + 1), p.take(s + 1)) == cube_sad(t.take(s), p.take(s)) + mat_sad(
            t[s]@,
            p[s]@,
        ),
{
    assert(t.take(s + 1).drop_last() =~= t.take(s));
    assert(p.take(s + 1).drop_last() =~= p.take(s));
}

/// Extending a series by one batch adds that batch's element count.
proof fn lemma_cube_count_step(t: Seq<Vec<Vec<i64>>>, s: int)
    requires
        0 <= s < t.len(),
    ensures
        cube_count(t.take(s + 1)) == cube_count(t.take(s)) + mat_count(t[s]@),
{
    assert(t.take(s + 1).drop_last() =~= t.take(s));
}

/// Counts of series prefixes grow with the prefix.
proof fn lemma_cube_count_mono(t: Seq<Vec<Vec<i64>>>, i: int, j: int)
    requires
        0 <= i <= j <= t.len(),
    ensures
        cube_count(t.take(i)) <= cube_count(t.take(j)),
    decreases j - i,
{
    if i < j {
        lemma_cube_count_mono(t, i, j - 1);
        lemma_cube_count_step(t, j - 1);
        lemma_mat_count_nonneg(t[j - 1]@, t[j - 1]@.len() as int);
        assert(t[j - 1]@.take(t[j - 1]@.len() as int) =~= t[j - 1]@);
    }
}

} // verus!
