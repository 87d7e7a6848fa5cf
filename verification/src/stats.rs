use vstd::prelude::*;
use crate::rational::{lemma_mul_abs_bound, lemma_mul_bound, lemma_sq_bound, Rat};

verus! {

/// Failure of the batch statistics: an empty sequence has no mean.
#[derive(Clone, Copy, Debug, PartialEq, Eq, Structural)]
pub enum StatsError {
    EmptyInput,
}

/// Exact population statistics over a batch of estimates: the mean, and the
/// variance (the mean of the squared deviations, dividing by the full count).
/// The population standard deviation is the square root of `variance`; the
/// root is irrational in general, so the exact result stops at the variance
/// and callers take the root in whatever real representation they use.
#[derive(Clone, Copy, Debug, PartialEq, Eq, Structural)]
pub struct Summary {
    pub mean: Rat,
    pub variance: Rat,
}

/// Sum of the sequence.
pub open spec fn sum_of(xs: Seq<i64>) -> int
    decreases xs.len(),
{
    if xs.len() == 0 {
        0
    } else {
        sum_of(xs.drop_last()) + xs.last()
    }
}

/// Sum of the squared deviations from the mean, scaled by `n^2` to stay in
/// integers: each term is `(x_i * n - total)^2 == (n * (x_i - total / n))^2`.
pub open spec fn sq_dev_sum(xs: Seq<i64>, n: int, total: int) -> int
    decreases xs.len(),
{
    if xs.len() == 0 {
        0
    } else {
        sq_dev_sum(xs.drop_last(), n, total) + (xs.last() * n - total) * (xs.last() * n - total)
    }
}

/// Largest admitted batch of estimates.
pub const MAX_ESTIMATES: usize = 8192;

/// Largest admitted magnitude of one estimate. Together with `MAX_ESTIMATES`
/// the cap keeps the exact sum of squared deviations inside `i128`.
pub const MAX_ESTIMATE_ABS: i64 = 0xE8D4A51000;

/// Computes the exact mean and population variance of a batch of estimates:
/// `mean == total / n` and
/// `variance == (sum of (x_i - mean)^2) / n == (sum of (x_i*n - total)^2) / n^3`.
/// Fails with `EmptyInput` exactly when the batch is empty, the one input
/// with no defined mean.
///
/// The estimates are fixed-point integers in any one scale the caller
/// chooses; the magnitude and count caps keep the exact arithmetic in range.
pub fn summarize(xs: &Vec<i64>) -> (r: Result<Summary, StatsError>)
    requires
        xs@.len() <= MAX_ESTIMATES,
        forall|i: int| 0 <= i < xs@.len() ==> -MAX_ESTIMATE_ABS <= #[trigger] xs@[i]
            <= MAX_ESTIMATE_ABS,
    ensures
        r is Err <==> xs@.len() == 0,
        r is Err ==> r == Err::<Summary, StatsError>(StatsError::EmptyInput),
        r matches Ok(s) ==> {
            let n = xs@.len() as int;
            s.mean.wf() && s.variance.wf() && s.mean.num == sum_of(xs@) && s.mean.den == n
                && s.variance.num == sq_dev_sum(xs@, n, sum_of(xs@)) && s.variance.den == n * n * n
                && s.variance.num >= 0
        },
{
    let n = xs.len();
    if n == 0 {
        return Err(StatsError::EmptyInput);
    }
    let mut total: i128 = 0;
    let mut i: usize = 0;
    while i < n
        invariant
            n == xs@.len(),
            n <= MAX_ESTIMATES,
            i <= n,
            forall|j: int| 0 <= j < xs@.len() ==> -MAX_ESTIMATE_ABS <= #[trigger] xs@[j]
                <= MAX_ESTIMATE_ABS,
            total == sum_of(xs@.take(i as int)),
            -1000000000000 * (i as int) <= total <= 1000000000000 * (i as int),
        decreases n - i,
    {
        proof {
            assert(xs@.take(i as int + 1).drop_last() =~= xs@.take(i as int));
            assert(xs@.take(i as int + 1).last() == xs@[i as int]);
        }
        total = total + xs[i] as i128;
        i += 1;
    }
    proof {
        assert(xs@.take(n as int) =~= xs@);
    }
    let mut devs: i128 = 0;
    let mut i: usize = 0;
    while i < n
        invariant
            n == xs@.len(),
            1 <= n <= MAX_ESTIMATES,
            i <= n,
            forall|j: int| 0 <= j < xs@.len() ==> -MAX_ESTIMATE_ABS <= #[trigger] xs@[j]
                <= MAX_ESTIMATE_ABS,
            total == sum_of(xs@),
            -8192000000000000 <= total <= 8192000000000000,
            devs == sq_dev_sum(xs@.take(i as int), n as int, total as int),
            0 <= devs <= 268435456000000000000000000000000 * (i as int),
        decreases n - i,
    {
        proof {
            assert(xs@.take(i as int + 1).drop_last() =~= xs@.take(i as int));
            assert(xs@.take(i as int + 1).last() == xs@[i as int]);
            lemma_mul_abs_bound(xs@[i as int] as int, n as int, 1000000000000, 8192);
            lemma_sq_bound(xs@[i as int] as int * n as int - total as int, 16384000000000000);
        }
        let dev: i128 = xs[i] as i128 * n as i128 - total;
        devs = devs + dev * dev;
        i += 1;
    }
    proof {
        assert(xs@.take(n as int) =~= xs@);
        lemma_mul_bound(n as int, n as int, 8192, 8192);
        lemma_mul_bound(n as int * n as int, n as int, 67108864, 8192);
        assert(n as int * n as int * n as int > 0) by (nonlinear_arith)
            requires
                n >= 1,
        ;
    }
    let nn: i128 = n as i128;
    Ok(Summary { mean: Rat { num: total, den: nn }, variance: Rat { num: devs, den: nn * nn * nn } })
}

/// A batch of one estimate has that estimate as its mean and no spread: the
/// summary of `[x]` is exactly `(x, 0)`.
pub proof fn lemma_singleton_summary(xs: Seq<i64>)
    requires
        xs.len() == 1,
    ensures
        sum_of(xs) == xs[0],
        sq_dev_sum(xs, 1, sum_of(xs)) == 0,
{
    let e = xs.drop_last();
    assert(e.len() == 0);
    assert(sum_of(e) == 0);
    assert(sq_dev_sum(e, 1, sum_of(xs)) == 0);
    assert(sum_of(xs) == sum_of(e) + xs.last());
    assert((xs.last() * 1 - sum_of(xs)) == 0);
}

} // verus!
