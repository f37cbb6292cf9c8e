use vstd::arithmetic::div_mod::{lemma_div_is_ordered, lemma_div_by_multiple};
use vstd::arithmetic::mul::lemma_mul_inequality;
use vstd::prelude::*;

verus! {

/// First row of band `job` when `height` rows are shared among `jobs` workers.
pub open spec fn band_begin(height: int, jobs: int, job: int) -> int {
    height * job / jobs
}

/// The rows `[begin, end)` that worker `job` of `jobs` renders in an image of
/// `height` rows.
pub fn row_band(height: usize, jobs: usize, job: usize) -> (r: (usize, usize))
    requires
        job < jobs,
        height * jobs <= usize::MAX,
    ensures
        r.0 == band_begin(height as int, jobs as int, job as int),
        r.1 == band_begin(height as int, jobs as int, job + 1),
        r.0 <= r.1 <= height,
{
    proof {
        lemma_mul_inequality(job + 1, jobs as int, height as int);
        lemma_mul_inequality(job as int, job + 1, height as int);
        assert(height * (job + 1) == (job + 1) * height) by (nonlinear_arith);
        assert(height * job == job * height) by (nonlinear_arith);
        assert(height * jobs == jobs * height) by (nonlinear_arith);
        lemma_div_is_ordered(height * job, height * (job + 1), jobs as int);
        lemma_div_is_ordered(height * (job + 1), height * jobs, jobs as int);
        lemma_div_by_multiple(height as int, jobs as int);
    }
    let begin = height * job / jobs;
    let end = height * (job + 1) / jobs;
    (begin, end)
}

/// The bands of `jobs` workers cover the rows of the image once each, in
/// order: the first starts at row 0, each ends where the next begins, none
/// runs backwards, and the last ends at `height`.
pub proof fn lemma_row_bands_tile(height: nat, jobs: nat)
    requires
        jobs > 0,
    ensures
        band_begin(height as int, jobs as int, 0) == 0,
        band_begin(height as int, jobs as int, jobs as int) == height,
        forall|job: int|
            0 <= job < jobs ==> band_begin(height as int, jobs as int, job) <= #[trigger] band_begin(
                height as int,
                jobs as int,
                job + 1,
            ),
{
    assert(height * 0 == 0) by (nonlinear_arith);
    assert(height * jobs == jobs * height) by (nonlinear_arith);
    lemma_div_by_multiple(height as int, jobs as int);
    assert forall|job: int| 0 <= job < jobs implies band_begin(height as int, jobs as int, job)
        <= #[trigger] band_begin(height as int, jobs as int, job + 1) by {
        lemma_mul_inequality(job, job + 1, height as int);
        assert(height * (job + 1) == (job + 1) * height) by (nonlinear_arith);
        assert(height * job == job * height) by (nonlinear_arith);
        lemma_div_is_ordered(height * job, height * (job + 1), jobs as int);
    }
}

} // verus!
