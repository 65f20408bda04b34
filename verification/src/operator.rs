use vstd::prelude::*;
use crate::matrix::IntMatrix;

verus! {

/// Entry `(i, j)` of the second-difference operator `D2` for any
/// signal long enough to contain it: row `i` has `1` at column `i`,
/// `-2` at column `i + 1`, `1` at column `i + 2`, and `0` elsewhere.
pub open spec fn d2_entry(i: int, j: int) -> int {
    if j == i {
        1
    } else if j == i + 1 {
        -2
    } else if j == i + 2 {
        1
    } else {
        0
    }
}

/// The discrete second difference of `x` at position `k`, which is
/// what row `k` of `D2` computes: `x[k] - 2*x[k + 1] + x[k + 2]`.
pub open spec fn second_diff(x: Seq<int>, k: int) -> int {
    x[k] - 2 * x[k + 1] + x[k + 2]
}

/// One coefficient of the second-difference operator.
pub fn d2_coeff(i: usize, j: usize) -> (v: i64)
    ensures
        v as int == d2_entry(i as int, j as int),
{
    if j == i {
        1
    } else if j > i && j - i == 1 {
        -2
    } else if j > i && j - i == 2 {
        1
    } else {
        0
    }
}

/// Build the `(t - 2) x t` second-difference operator.
pub fn construct_d2(t: usize) -> (d2: IntMatrix)
    requires
        3 <= t,
    ensures
        d2.wf(),
        d2.rows == t - 2,
        d2.cols == t,
        forall|i: int, j: int|
            0 <= i < t - 2 && 0 <= j < t ==> d2.entry(i, j) == d2_entry(i, j),
{
    let rows: usize = t - 2;
    let mut data: Vec<Vec<i64>> = Vec::new();
    let mut i: usize = 0;
    while i < rows
        invariant
            rows == t - 2,
            3 <= t,
            i <= rows,
            data@.len() == i as int,
            forall|ii: int|
                0 <= ii < i as int ==> (#[trigger] data@[ii])@.len() == t as int,
            forall|ii: int, jj: int|
                0 <= ii < i as int && 0 <= jj < t as int
                    ==> (#[trigger] data@[ii]@[jj]) as int == d2_entry(ii, jj),
        decreases rows - i,
    {
        let mut row: Vec<i64> = Vec::new();
        let mut j: usize = 0;
        while j < t
            invariant
                j <= t,
                row@.len() == j as int,
                forall|jj: int|
                    0 <= jj < j as int
                        ==> (#[trigger] row@[jj]) as int == d2_entry(i as int, jj),
            decreases t - j,
        {
            let v = d2_coeff(i, j);
            row.push(v);
            j = j + 1;
        }
        data.push(row);
        i = i + 1;
    }
    IntMatrix { rows, cols: t, data }
}

} // verus!
