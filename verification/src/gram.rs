use vstd::prelude::*;
use crate::matrix::IntMatrix;
use crate::operator::d2_entry;
use crate::operator::d2_coeff;

verus! {

/// Partial Gram sum: the contribution of the first `m` operator rows
/// to entry `(i, j)` of `D2^T * D2`.
pub open spec fn gram_partial(i: int, j: int, m: int) -> int
    decreases m,
{
    if m <= 0 {
        0
    } else {
        gram_partial(i, j, m - 1) + d2_entry(m - 1, i) * d2_entry(m - 1, j)
    }
}

/// Entry `(i, j)` of the Gram matrix `G = D2^T * D2` for a signal of
/// length `t`: the sum over all `t - 2` operator rows.
pub open spec fn gram_entry(t: int, i: int, j: int) -> int {
    gram_partial(i, j, t - 2)
}

/// Only rows `i - 2 ..= i` of the operator touch column `i`, and each
/// contributes at most `2 * 2` in magnitude, so every partial Gram sum
/// lies in `[-12, 12]`; before row `i - 2` it is still zero.
proof fn lemma_gram_partial_bound(i: int, j: int, m: int)
    ensures
        m <= i - 2 ==> gram_partial(i, j, m) == 0,
        m <= i - 1 ==> -4 <= gram_partial(i, j, m) <= 4,
        m <= i ==> -8 <= gram_partial(i, j, m) <= 8,
        -12 <= gram_partial(i, j, m) <= 12,
    decreases (if m <= 0 { 0 } else { m }),
{
    if m <= 0 {
    } else {
        lemma_gram_partial_bound(i, j, m - 1);
        assert(-4 <= d2_entry(m - 1, i) * d2_entry(m - 1, j) <= 4) by (nonlinear_arith)
            requires
                -2 <= d2_entry(m - 1, i) <= 2,
                -2 <= d2_entry(m - 1, j) <= 2;
        if m - 1 > i {
            assert(d2_entry(m - 1, i) == 0);
            assert(d2_entry(m - 1, i) * d2_entry(m - 1, j) == 0) by (nonlinear_arith)
                requires
                    d2_entry(m - 1, i) == 0;
        }
        if m - 1 < i - 2 {
            assert(d2_entry(m - 1, i) == 0);
            assert(d2_entry(m - 1, i) * d2_entry(m - 1, j) == 0) by (nonlinear_arith)
                requires
                    d2_entry(m - 1, i) == 0;
        }
    }
}

/// Every Gram entry lies in `[-12, 12]`.
pub proof fn lemma_gram_entry_bound(t: int, i: int, j: int)
    ensures
        -12 <= gram_entry(t, i, j) <= 12,
{
    lemma_gram_partial_bound(i, j, t - 2);
}

/// Each partial Gram sum is symmetric in `(i, j)`, because each of its
/// terms is a product of two operator entries.
proof fn lemma_gram_partial_symmetric(i: int, j: int, m: int)
    ensures
        gram_partial(i, j, m) == gram_partial(j, i, m),
    decreases (if m <= 0 { 0 } else { m }),
{
    if m <= 0 {
    } else {
        lemma_gram_partial_symmetric(i, j, m - 1);
        assert(d2_entry(m - 1, i) * d2_entry(m - 1, j) == d2_entry(m - 1, j) * d2_entry(
            m - 1,
            i,
        )) by (nonlinear_arith);
    }
}

/// The Gram matrix is symmetric: `G[i][j] == G[j][i]`.
pub proof fn lemma_gram_symmetric(t: int, i: int, j: int)
    ensures
        gram_entry(t, i, j) == gram_entry(t, j, i),
{
    lemma_gram_partial_symmetric(i, j, t - 2);
}

/// Build the `t x t` Gram matrix `G = D2^T * D2` of the
/// second-difference operator for a signal of length `t`.
pub fn gram_matrix(t: usize) -> (g: IntMatrix)
    requires
        3 <= t,
    ensures
        g.wf(),
        g.rows == t,
        g.cols == t,
        forall|i: int, j: int|
            0 <= i < t && 0 <= j < t ==> g.entry(i, j) == gram_entry(t as int, i, j),
{
    let m: usize = t - 2;
    let mut data: Vec<Vec<i64>> = Vec::new();
    let mut i: usize = 0;
    while i < t
        invariant
            3 <= t,
            m == t - 2,
            i <= t,
            data@.len() == i as int,
            forall|ii: int|
                0 <= ii < i as int ==> (#[trigger] data@[ii])@.len() == t as int,
            forall|ii: int, jj: int|
                0 <= ii < i as int && 0 <= jj < t as int
                    ==> (#[trigger] data@[ii]@[jj]) as int == gram_entry(t as int, ii, jj),
        decreases t - i,
    {
        let mut row: Vec<i64> = Vec::new();
        let mut j: usize = 0;
        while j < t
            invariant
                3 <= t,
                m == t - 2,
                i < t,
                j <= t,
                row@.len() == j as int,
                forall|jj: int|
                    0 <= jj < j as int
                        ==> (#[trigger] row@[jj]) as int == gram_entry(t as int, i as int, jj),
            decreases t - j,
        {
            let mut acc: i64 = 0;
            let mut k: usize = 0;
            while k < m
                invariant
                    3 <= t,
                    m == t - 2,
                    i < t,
                    j < t,
                    k <= m,
                    acc as int == gram_partial(i as int, j as int, k as int),
                decreases m - k,
            {
                let a = d2_coeff(k, i);
                let b = d2_coeff(k, j);
                proof {
                    lemma_gram_partial_bound(i as int, j as int, k as int);
                    assert(-4 <= (a as int) * (b as int) <= 4) by (nonlinear_arith)
                        requires
                            -2 <= a as int <= 2,
                            -2 <= b as int <= 2;
                }
                acc = acc + a * b;
                k = k + 1;
            }
            row.push(acc);
            j = j + 1;
        }
        data.push(row);
        i = i + 1;
    }
    IntMatrix { rows: t, cols: t, data }
}

} // verus!
