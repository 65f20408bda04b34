use vstd::prelude::*;
use crate::matrix::IntMatrix;
use crate::gram::gram_entry;
use crate::gram::gram_matrix;
use crate::gram::lemma_gram_entry_bound;
use crate::gram::lemma_gram_symmetric;

verus! {

/// The largest magnitude of the smoothing parameter that
/// `assemble_system` accepts: `lam * lam * 12 + 1` must fit in an
/// `i64`, and every Gram entry lies in `[-12, 12]`.
pub const MAX_SMOOTHING: i64 = 800_000_000;

/// Entry `(i, j)` of the system matrix `A = I + lam^2 * G`, where `G`
/// is the Gram matrix of the second-difference operator.
pub open spec fn system_entry(t: int, lam: int, i: int, j: int) -> int {
    (if i == j {
        1int
    } else {
        0int
    }) + lam * lam * gram_entry(t, i, j)
}

/// Negating the smoothing parameter leaves the system unchanged,
/// since only its square enters the assembly.
pub proof fn lemma_sign_invariance(t: int, lam: int)
    ensures
        forall|i: int, j: int| system_entry(t, lam, i, j) == system_entry(t, -lam, i, j),
{
    assert(lam * lam == (-lam) * (-lam)) by (nonlinear_arith);
}

/// With no smoothing at all the system matrix is the identity, so the
/// fitted trend equals the signal and the residual is all zero.
pub proof fn lemma_zero_smoothing_identity(t: int, i: int, j: int)
    ensures
        system_entry(t, 0, i, j) == (if i == j {
            1int
        } else {
            0int
        }),
{
    assert((0int) * (0int) * gram_entry(t, i, j) == 0) by (nonlinear_arith);
}

/// The system matrix is symmetric: `A[i][j] == A[j][i]`.
pub proof fn lemma_system_symmetric(t: int, lam: int, i: int, j: int)
    ensures
        system_entry(t, lam, i, j) == system_entry(t, lam, j, i),
{
    lemma_gram_symmetric(t, i, j);
}

/// Assemble the `t x t` system matrix `A = I + lam^2 * G` in exact
/// integer arithmetic.
///
/// The bound on `lam` only keeps `1 + lam^2 * G[i][j]` inside `i64`;
/// it is a machine limit, not part of the smoothing policy.
pub fn assemble_system(t: usize, lam: i64) -> (a: IntMatrix)
    requires
        3 <= t,
        -MAX_SMOOTHING <= lam <= MAX_SMOOTHING,
    ensures
        a.wf(),
        a.rows == t,
        a.cols == t,
        forall|i: int, j: int|
            0 <= i < t && 0 <= j < t ==> a.entry(i, j) == system_entry(t as int, lam as int, i, j),
{
    proof {
        assert(0 <= (lam as int) * (lam as int) <= 640_000_000_000_000_000) by (nonlinear_arith)
            requires
                -800_000_000 <= lam as int <= 800_000_000;
    }
    let lam_sq: i64 = lam * lam;
    let g = gram_matrix(t);
    let mut data: Vec<Vec<i64>> = Vec::new();
    let mut i: usize = 0;
    while i < t
        invariant
            3 <= t,
            0 <= lam_sq as int <= 640_000_000_000_000_000,
            lam_sq as int == (lam as int) * (lam as int),
            g.wf(),
            g.rows == t,
            g.cols == t,
            forall|ii: int, jj: int|
                0 <= ii < t && 0 <= jj < t ==> g.entry(ii, jj) == gram_entry(t as int, ii, jj),
            i <= t,
            data@.len() == i as int,
            forall|ii: int|
                0 <= ii < i as int ==> (#[trigger] data@[ii])@.len() == t as int,
            forall|ii: int, jj: int|
                0 <= ii < i as int && 0 <= jj < t as int
                    ==> (#[trigger] data@[ii]@[jj]) as int == system_entry(
                    t as int,
                    lam as int,
                    ii,
                    jj,
                ),
        decreases t - i,
    {
        let mut row: Vec<i64> = Vec::new();
        let mut j: usize = 0;
        while j < t
            invariant
                3 <= t,
                0 <= lam_sq as int <= 640_000_000_000_000_000,
                lam_sq as int == (lam as int) * (lam as int),
                g.wf(),
                g.rows == t,
                g.cols == t,
                forall|ii: int, jj: int|
                    0 <= ii < t && 0 <= jj < t ==> g.entry(ii, jj) == gram_entry(t as int, ii, jj),
                i < t,
                j <= t,
                row@.len() == j as int,
                forall|jj: int|
                    0 <= jj < j as int
                        ==> (#[trigger] row@[jj]) as int == system_entry(
                        t as int,
                        lam as int,
                        i as int,
                        jj,
                    ),
            decreases t - j,
        {
            let gv = g.get(i, j);
            proof {
                lemma_gram_entry_bound(t as int, i as int, j as int);
                assert(-12 * 640_000_000_000_000_000 <= (lam_sq as int) * (gv as int) <= 12
                    * 640_000_000_000_000_000) by (nonlinear_arith)
                    requires
                        0 <= lam_sq as int <= 640_000_000_000_000_000,
                        -12 <= gv as int <= 12;
            }
            let base: i64 = if j == i {
                1
            } else {
                0
            };
            let e: i64 = base + lam_sq * gv;
            row.push(e);
            j = j + 1;
        }
        data.push(row);
        i = i + 1;
    }
    IntMatrix { rows: t, cols: t, data }
}

/// What the detrend operation does for a signal of a given length.
pub enum DetrendPlan {
    /// The signal is too short to difference twice; it is returned
    /// unchanged, a deliberate short-circuit rather than an error.
    ReturnUnchanged,
    /// Fit a trend: solve `(I + lambda^2 * G) s = z` with the Gram
    /// matrix below and return the residual `z - s`.
    FitTrend { gram: IntMatrix },
}

/// Decide how a signal of length `t` is detrended, and hand out the
/// Gram matrix of its second-difference operator when a trend is to
/// be fitted.
pub fn plan_detrend(t: usize) -> (p: DetrendPlan)
    ensures
        t < 3 <==> p is ReturnUnchanged,
        t >= 3 ==> (p matches DetrendPlan::FitTrend { gram } && gram.wf() && gram.rows == t
            && gram.cols == t && forall|i: int, j: int|
            0 <= i < t && 0 <= j < t ==> gram.entry(i, j) == gram_entry(t as int, i, j)),
{
    if t < 3 {
        DetrendPlan::ReturnUnchanged
    } else {
        DetrendPlan::FitTrend { gram: gram_matrix(t) }
    }
}

} // verus!
