use vstd::prelude::*;
use crate::operator::d2_entry;
use crate::operator::second_diff;
use crate::gram::gram_partial;
use crate::system::system_entry;

verus! {

/// The sum of the squares of the first `n` entries of `x`.
pub open spec fn sum_sq(x: Seq<int>, n: int) -> int
    decreases (if n <= 0 { 0int } else { n }),
{
    if n <= 0 {
        0
    } else {
        sum_sq(x, n - 1) + x[n - 1] * x[n - 1]
    }
}

/// Row `r` of the second-difference operator applied to the first `n`
/// entries of `x`.
pub open spec fn row_apply(r: int, x: Seq<int>, n: int) -> int
    decreases (if n <= 0 { 0int } else { n }),
{
    if n <= 0 {
        0
    } else {
        row_apply(r, x, n - 1) + d2_entry(r, n - 1) * x[n - 1]
    }
}

/// Row `i` of the partial Gram matrix (its first `m` operator rows)
/// dotted with the first `n` entries of `x`.
pub open spec fn gram_row_dot(i: int, x: Seq<int>, n: int, m: int) -> int
    decreases (if n <= 0 { 0int } else { n }),
{
    if n <= 0 {
        0
    } else {
        gram_row_dot(i, x, n - 1, m) + gram_partial(i, n - 1, m) * x[n - 1]
    }
}

/// The quadratic form of the partial Gram matrix: the first `n` terms
/// of `x^T * G * x`, each row dotted with the first `len` entries.
pub open spec fn gram_quad(x: Seq<int>, n: int, len: int, m: int) -> int
    decreases (if n <= 0 { 0int } else { n }),
{
    if n <= 0 {
        0
    } else {
        gram_quad(x, n - 1, len, m) + x[n - 1] * gram_row_dot(n - 1, x, len, m)
    }
}

/// Sum over the first `m` operator rows of the product of the row
/// applied to the first `len` entries and to the first `n` entries.
pub open spec fn diff_sq_sum(x: Seq<int>, len: int, n: int, m: int) -> int
    decreases (if m <= 0 { 0int } else { m }),
{
    if m <= 0 {
        0
    } else {
        diff_sq_sum(x, len, n, m - 1) + row_apply(m - 1, x, len) * row_apply(m - 1, x, n)
    }
}

/// The sum of the squared second differences of `x` at positions
/// `0 .. m`.
pub open spec fn second_diff_sq_sum(x: Seq<int>, m: int) -> int
    decreases (if m <= 0 { 0int } else { m }),
{
    if m <= 0 {
        0
    } else {
        second_diff_sq_sum(x, m - 1) + second_diff(x, m - 1) * second_diff(x, m - 1)
    }
}

/// Row `i` of the identity matrix dotted with the first `n` entries
/// of `x`.
pub open spec fn ident_dot(i: int, x: Seq<int>, n: int) -> int
    decreases (if n <= 0 { 0int } else { n }),
{
    if n <= 0 {
        0
    } else {
        ident_dot(i, x, n - 1) + (if i == n - 1 {
            1int
        } else {
            0int
        }) * x[n - 1]
    }
}

/// Row `i` of the system matrix dotted with the first `n` entries of
/// `x`.
pub open spec fn sys_row_dot(t: int, lam: int, i: int, x: Seq<int>, n: int) -> int
    decreases (if n <= 0 { 0int } else { n }),
{
    if n <= 0 {
        0
    } else {
        sys_row_dot(t, lam, i, x, n - 1) + system_entry(t, lam, i, n - 1) * x[n - 1]
    }
}

/// The first `n` terms of the quadratic form `x^T * A * x` of the
/// system matrix `A = I + lam^2 * G` for a signal of length `t`.
pub open spec fn sys_quad(t: int, lam: int, x: Seq<int>, n: int) -> int
    decreases (if n <= 0 { 0int } else { n }),
{
    if n <= 0 {
        0
    } else {
        sys_quad(t, lam, x, n - 1) + x[n - 1] * sys_row_dot(t, lam, n - 1, x, t)
    }
}

/// Row `r` of the operator ignores entries before column `r`.
proof fn lemma_row_apply_prefix_zero(r: int, x: Seq<int>, n: int)
    requires
        n <= r,
    ensures
        row_apply(r, x, n) == 0,
    decreases (if n <= 0 { 0int } else { n }),
{
    if n <= 0 {
    } else {
        lemma_row_apply_prefix_zero(r, x, n - 1);
        assert(d2_entry(r, n - 1) == 0);
        assert(d2_entry(r, n - 1) * x[n - 1] == 0) by (nonlinear_arith)
            requires
                d2_entry(r, n - 1) == 0;
    }
}

/// Once `n` has passed column `r + 2`, row `r` applied to the first
/// `n` entries is exactly the second difference of `x` at `r`.
proof fn lemma_row_apply_is_second_diff(r: int, x: Seq<int>, n: int)
    requires
        0 <= r,
        r + 3 <= n,
    ensures
        row_apply(r, x, n) == second_diff(x, r),
    decreases n,
{
    if n == r + 3 {
        lemma_row_apply_prefix_zero(r, x, r);
        assert(row_apply(r, x, r + 1) == row_apply(r, x, r) + d2_entry(r, r) * x[r]);
        assert(d2_entry(r, r) * x[r] == 1 * x[r]) by (nonlinear_arith)
            requires
                d2_entry(r, r) == 1;
        assert(d2_entry(r, r + 1) * x[r + 1] == (-2) * x[r + 1]) by (nonlinear_arith)
            requires
                d2_entry(r, r + 1) == -2;
        assert(d2_entry(r, r + 2) * x[r + 2] == 1 * x[r + 2]) by (nonlinear_arith)
            requires
                d2_entry(r, r + 2) == 1;
        assert(row_apply(r, x, r + 2) == row_apply(r, x, r + 1) + d2_entry(r, r + 1) * x[r + 1]);
        assert(row_apply(r, x, r + 3) == row_apply(r, x, r + 2) + d2_entry(r, r + 2) * x[r + 2]);
    } else {
        lemma_row_apply_is_second_diff(r, x, n - 1);
        assert(d2_entry(r, n - 1) == 0);
        assert(d2_entry(r, n - 1) * x[n - 1] == 0) by (nonlinear_arith)
            requires
                d2_entry(r, n - 1) == 0;
    }
}

/// With no operator rows at all, every Gram row dot product is zero.
proof fn lemma_gram_row_dot_empty(i: int, x: Seq<int>, n: int, m: int)
    requires
        m <= 0,
    ensures
        gram_row_dot(i, x, n, m) == 0,
    decreases (if n <= 0 { 0int } else { n }),
{
    if n <= 0 {
    } else {
        lemma_gram_row_dot_empty(i, x, n - 1, m);
        assert(gram_partial(i, n - 1, m) * x[n - 1] == 0) by (nonlinear_arith)
            requires
                gram_partial(i, n - 1, m) == 0;
    }
}

/// Adding operator row `m - 1` to the partial Gram matrix adds
/// `d2_entry(m - 1, i) * row_apply(m - 1, x, n)` to row `i`'s dot
/// product.
proof fn lemma_gram_row_dot_step(i: int, x: Seq<int>, n: int, m: int)
    requires
        m >= 1,
    ensures
        gram_row_dot(i, x, n, m) == gram_row_dot(i, x, n, m - 1) + d2_entry(m - 1, i) * row_apply(
            m - 1,
            x,
            n,
        ),
    decreases (if n <= 0 { 0int } else { n }),
{
    if n <= 0 {
        assert(d2_entry(m - 1, i) * row_apply(m - 1, x, n) == 0) by (nonlinear_arith)
            requires
                row_apply(m - 1, x, n) == 0;
    } else {
        lemma_gram_row_dot_step(i, x, n - 1, m);
        let gp1: int = gram_partial(i, n - 1, m - 1);
        let b: int = d2_entry(m - 1, i);
        let c: int = d2_entry(m - 1, n - 1);
        let xv: int = x[n - 1];
        let ra1: int = row_apply(m - 1, x, n - 1);
        assert(gram_partial(i, n - 1, m) == gp1 + b * c);
        assert(row_apply(m - 1, x, n) == ra1 + c * xv);
        assert((gp1 + b * c) * xv + b * ra1 == gp1 * xv + b * (ra1 + c * xv)) by (nonlinear_arith);
    }
}

/// With no operator rows, the Gram quadratic form is zero.
proof fn lemma_gram_quad_empty(x: Seq<int>, n: int, len: int, m: int)
    requires
        m <= 0,
    ensures
        gram_quad(x, n, len, m) == 0,
    decreases (if n <= 0 { 0int } else { n }),
{
    if n <= 0 {
    } else {
        lemma_gram_quad_empty(x, n - 1, len, m);
        lemma_gram_row_dot_empty(n - 1, x, len, m);
        assert(x[n - 1] * gram_row_dot(n - 1, x, len, m) == 0) by (nonlinear_arith)
            requires
                gram_row_dot(n - 1, x, len, m) == 0;
    }
}

/// Adding operator row `m - 1` adds the product of its two
/// applications to the Gram quadratic form.
proof fn lemma_gram_quad_step(x: Seq<int>, n: int, len: int, m: int)
    requires
        m >= 1,
    ensures
        gram_quad(x, n, len, m) == gram_quad(x, n, len, m - 1) + row_apply(m - 1, x, len)
            * row_apply(m - 1, x, n),
    decreases (if n <= 0 { 0int } else { n }),
{
    if n <= 0 {
        assert(row_apply(m - 1, x, len) * row_apply(m - 1, x, n) == 0) by (nonlinear_arith)
            requires
                row_apply(m - 1, x, n) == 0;
    } else {
        lemma_gram_quad_step(x, n - 1, len, m);
        lemma_gram_row_dot_step(n - 1, x, len, m);
        let grd1: int = gram_row_dot(n - 1, x, len, m - 1);
        let rl: int = row_apply(m - 1, x, len);
        let c: int = d2_entry(m - 1, n - 1);
        let xv: int = x[n - 1];
        let ra1: int = row_apply(m - 1, x, n - 1);
        assert(gram_row_dot(n - 1, x, len, m) == grd1 + c * rl);
        assert(row_apply(m - 1, x, n) == ra1 + c * xv);
        assert(xv * (grd1 + c * rl) + rl * ra1 == xv * grd1 + rl * (ra1 + c * xv))
            by (nonlinear_arith);
    }
}

/// The Gram quadratic form is the sum over the operator rows of the
/// product of the row's two applications.
proof fn lemma_gram_quad_is_diff_sq(x: Seq<int>, n: int, len: int, m: int)
    ensures
        gram_quad(x, n, len, m) == diff_sq_sum(x, len, n, m),
    decreases (if m <= 0 { 0int } else { m }),
{
    if m <= 0 {
        lemma_gram_quad_empty(x, n, len, m);
    } else {
        lemma_gram_quad_is_diff_sq(x, n, len, m - 1);
        lemma_gram_quad_step(x, n, len, m);
    }
}

/// When both applications run over the same prefix, every term of
/// `diff_sq_sum` is a square, so the sum is non-negative.
proof fn lemma_diff_sq_sum_nonneg(x: Seq<int>, len: int, m: int)
    ensures
        diff_sq_sum(x, len, len, m) >= 0,
    decreases (if m <= 0 { 0int } else { m }),
{
    if m <= 0 {
    } else {
        lemma_diff_sq_sum_nonneg(x, len, m - 1);
        assert(row_apply(m - 1, x, len) * row_apply(m - 1, x, len) >= 0) by (nonlinear_arith);
    }
}

/// The Gram quadratic form of a full signal is the sum of its squared
/// second differences: `x^T * (D2^T * D2) * x == |D2 * x|^2`.
pub proof fn lemma_gram_quad_is_curvature(x: Seq<int>, t: int)
    requires
        3 <= t,
        x.len() == t,
    ensures
        gram_quad(x, t, t, t - 2) == second_diff_sq_sum(x, t - 2),
{
    lemma_gram_quad_is_diff_sq(x, t, t, t - 2);
    lemma_diff_sq_sum_is_curvature(x, t, t - 2);
}

/// Each term of `diff_sq_sum` over the full signal is a squared
/// second difference.
proof fn lemma_diff_sq_sum_is_curvature(x: Seq<int>, t: int, m: int)
    requires
        3 <= t,
        m <= t - 2,
    ensures
        diff_sq_sum(x, t, t, m) == second_diff_sq_sum(x, m),
    decreases (if m <= 0 { 0int } else { m }),
{
    if m <= 0 {
    } else {
        lemma_diff_sq_sum_is_curvature(x, t, m - 1);
        lemma_row_apply_is_second_diff(m - 1, x, t);
    }
}

/// A row of the identity dotted with `x` picks out one entry.
proof fn lemma_ident_dot(i: int, x: Seq<int>, n: int)
    ensures
        ident_dot(i, x, n) == (if 0 <= i < n {
            x[i]
        } else {
            0int
        }),
    decreases (if n <= 0 { 0int } else { n }),
{
    if n <= 0 {
    } else {
        lemma_ident_dot(i, x, n - 1);
        if i == n - 1 {
            assert((1int) * x[n - 1] == x[n - 1]) by (nonlinear_arith);
        } else {
            assert((0int) * x[n - 1] == 0) by (nonlinear_arith);
        }
    }
}

/// A row of the system matrix dotted with `x` splits into the
/// identity part and `lam^2` times the Gram part.
proof fn lemma_sys_row_dot_split(t: int, lam: int, i: int, x: Seq<int>, n: int)
    ensures
        sys_row_dot(t, lam, i, x, n) == ident_dot(i, x, n) + lam * lam * gram_row_dot(
            i,
            x,
            n,
            t - 2,
        ),
    decreases (if n <= 0 { 0int } else { n }),
{
    if n <= 0 {
        assert(lam * lam * gram_row_dot(i, x, n, t - 2) == 0) by (nonlinear_arith)
            requires
                gram_row_dot(i, x, n, t - 2) == 0;
    } else {
        lemma_sys_row_dot_split(t, lam, i, x, n - 1);
        let s: int = lam * lam;
        let dl: int = if i == n - 1 {
            1int
        } else {
            0int
        };
        let gp: int = gram_partial(i, n - 1, t - 2);
        let xv: int = x[n - 1];
        let grd1: int = gram_row_dot(i, x, n - 1, t - 2);
        assert(system_entry(t, lam, i, n - 1) == dl + s * gp);
        assert((dl + s * gp) * xv == dl * xv + s * (gp * xv)) by (nonlinear_arith);
        assert(s * (grd1 + gp * xv) == s * grd1 + s * (gp * xv)) by (nonlinear_arith);
    }
}

/// The quadratic form of the system matrix splits into the sum of
/// squares of `x` and `lam^2` times the Gram quadratic form.
proof fn lemma_sys_quad_split(t: int, lam: int, x: Seq<int>, n: int)
    requires
        n <= t,
    ensures
        sys_quad(t, lam, x, n) == sum_sq(x, n) + lam * lam * gram_quad(x, n, t, t - 2),
    decreases (if n <= 0 { 0int } else { n }),
{
    if n <= 0 {
        assert(lam * lam * gram_quad(x, n, t, t - 2) == 0) by (nonlinear_arith)
            requires
                gram_quad(x, n, t, t - 2) == 0;
    } else {
        lemma_sys_quad_split(t, lam, x, n - 1);
        lemma_sys_row_dot_split(t, lam, n - 1, x, t);
        lemma_ident_dot(n - 1, x, t);
        let s: int = lam * lam;
        let xv: int = x[n - 1];
        let grd: int = gram_row_dot(n - 1, x, t, t - 2);
        let gq1: int = gram_quad(x, n - 1, t, t - 2);
        assert(sys_row_dot(t, lam, n - 1, x, t) == xv + s * grd);
        assert(xv * (xv + s * grd) == xv * xv + s * (xv * grd)) by (nonlinear_arith);
        assert(s * (gq1 + xv * grd) == s * gq1 + s * (xv * grd)) by (nonlinear_arith);
    }
}

/// A sum of squares is non-negative.
proof fn lemma_sum_sq_nonneg(x: Seq<int>, n: int)
    ensures
        sum_sq(x, n) >= 0,
    decreases (if n <= 0 { 0int } else { n }),
{
    if n <= 0 {
    } else {
        lemma_sum_sq_nonneg(x, n - 1);
        assert(x[n - 1] * x[n - 1] >= 0) by (nonlinear_arith);
    }
}

/// A sum of squares dominates each of its terms.
proof fn lemma_sum_sq_lower(x: Seq<int>, k: int, n: int)
    requires
        0 <= k < n,
    ensures
        sum_sq(x, n) >= x[k] * x[k],
    decreases n,
{
    if k == n - 1 {
        lemma_sum_sq_nonneg(x, n - 1);
    } else {
        lemma_sum_sq_lower(x, k, n - 1);
        assert(x[n - 1] * x[n - 1] >= 0) by (nonlinear_arith);
    }
}

/// The assembled system matrix is positive definite: for every signal
/// length `t >= 3`, every smoothing parameter and every integer
/// vector `x` with a nonzero entry, the quadratic form `x^T * A * x`
/// is strictly positive. (For a symmetric matrix this is equivalent
/// to all eigenvalues being strictly positive; the statement over
/// integer vectors extends to rational ones by clearing
/// denominators.)
pub proof fn lemma_system_positive_definite(t: int, lam: int, x: Seq<int>)
    requires
        3 <= t,
        x.len() == t,
        exists|k: int| 0 <= k < t && x[k] != 0,
    ensures
        sys_quad(t, lam, x, t) > 0,
{
    let k: int = choose|k: int| 0 <= k < t && x[k] != 0;
    lemma_sys_quad_split(t, lam, x, t);
    lemma_gram_quad_is_diff_sq(x, t, t, t - 2);
    lemma_diff_sq_sum_nonneg(x, t, t - 2);
    let gq: int = gram_quad(x, t, t, t - 2);
    assert(lam * lam * gq >= 0) by (nonlinear_arith)
        requires
            gq >= 0;
    lemma_sum_sq_lower(x, k, t);
    assert(x[k] * x[k] > 0) by (nonlinear_arith)
        requires
            x[k] != 0;
}

} // verus!
