use vstd::prelude::*;

verus! {

/// A dense matrix of 64-bit integers, stored row by row.
pub struct IntMatrix {
    pub rows: usize,
    pub cols: usize,
    pub data: Vec<Vec<i64>>,
}

impl IntMatrix {
    /// The storage matches the stated shape: `rows` rows of `cols`
    /// entries each.
    pub open spec fn wf(self) -> bool {
        &&& self.data@.len() == self.rows as int
        &&& forall|i: int|
            0 <= i < self.rows as int ==> (#[trigger] self.data@[i])@.len() == self.cols as int
    }

    /// The entry in row `i`, column `j`, as a mathematical integer.
    pub open spec fn entry(self, i: int, j: int) -> int {
        self.data@[i]@[j] as int
    }

    /// Read one entry.
    pub fn get(&self, i: usize, j: usize) -> (v: i64)
        requires
            self.wf(),
            i < self.rows,
            j < self.cols,
        ensures
            v as int == self.entry(i as int, j as int),
    {
        self.data[i][j]
    }
}

} // verus!
