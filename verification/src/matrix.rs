//! Dense matrices stored row by row, generic in the element type.

use vstd::prelude::*;

verus! {

/// A dense `nrows x ncols` matrix, stored as a vector of rows.
pub struct Mat<T> {
    ncols: usize,
    rows: Vec<Vec<T>>,
}

impl<T> View for Mat<T> {
    type V = Seq<Seq<T>>;

    /// The rows of the matrix, each a sequence of `ncols` entries.
    closed spec fn view(&self) -> Seq<Seq<T>> {
        self.rows@.map_values(|r: Vec<T>| r@)
    }
}

impl<T> Mat<T> {
    /// Every row holds exactly `ncols` entries.
    #[verifier::type_invariant]
    closed spec fn rows_have_width(self) -> bool {
        forall|i: int| 0 <= i < self.rows@.len() ==> #[trigger] self.rows@[i]@.len() == self.ncols
    }

    /// Number of rows.
    pub closed spec fn nr(self) -> nat {
        self.rows@.len()
    }

    /// Number of columns.
    pub closed spec fn nc(self) -> nat {
        self.ncols as nat
    }

    /// The shape is consistent: `nr` rows of `nc` entries each.  Every matrix
    /// that this module hands out satisfies it.
    pub open spec fn wf(self) -> bool {
        &&& self@.len() == self.nr()
        &&& forall|i: int| 0 <= i < self.nr() ==> #[trigger] self@[i].len() == self.nc()
    }

    proof fn lemma_wf(self)
        requires
            self.rows_have_width(),
        ensures
            self.wf(),
    {
    }

    /// Number of rows.
    pub fn nrows(&self) -> (r: usize)
        ensures
            r == self.nr(),
            self.wf(),
    {
        proof {
            use_type_invariant(self);
            self.lemma_wf();
        }
        self.rows.len()
    }

    /// Number of columns.
    pub fn ncols(&self) -> (c: usize)
        ensures
            c == self.nc(),
            self.wf(),
    {
        proof {
            use_type_invariant(self);
            self.lemma_wf();
        }
        self.ncols
    }
}

impl<T> Mat<T> {
    /// Builds a matrix with `ncols` columns from its rows.
    pub fn from_rows(rows: Vec<Vec<T>>, ncols: usize) -> (m: Mat<T>)
        requires
            forall|i: int| 0 <= i < rows@.len() ==> #[trigger] rows@[i]@.len() == ncols,
        ensures
            m.wf(),
            m.nr() == rows@.len(),
            m.nc() == ncols,
            m@ == rows@.map_values(|r: Vec<T>| r@),
    {
        let m = Mat { ncols, rows };
        proof {
            m.lemma_wf();
        }
        m
    }
}

impl<T: Copy> Mat<T> {
    /// The entry in row `i` and column `j`.
    pub fn get(&self, i: usize, j: usize) -> (x: T)
        requires
            i < self.nr(),
            j < self.nc(),
        ensures
            x == self@[i as int][j as int],
    {
        proof {
            use_type_invariant(self);
        }
        self.rows[i][j]
    }

    /// Builds an `nrows x ncols` matrix from its entries listed row after row.
    pub fn from_row_slice(nrows: usize, ncols: usize, data: &[T]) -> (m: Mat<T>)
        requires
            data@.len() == nrows * ncols,
        ensures
            m.wf(),
            m.nr() == nrows,
            m.nc() == ncols,
            forall|i: int, j: int|
                0 <= i < nrows && 0 <= j < ncols ==> #[trigger] m@[i][j] == data@[i * ncols + j],
    {
        let len = data.len();
        let mut rows: Vec<Vec<T>> = Vec::new();
        let mut i: usize = 0;
        while i < nrows
            invariant
                i <= nrows,
                len == data@.len(),
                data@.len() == nrows * ncols,
                rows@.len() == i,
                forall|k: int| 0 <= k < i ==> #[trigger] rows@[k]@.len() == ncols,
                forall|k: int, j: int|
                    0 <= k < i && 0 <= j < ncols ==> #[trigger] rows@[k]@[j] == data@[k * ncols + j],
            decreases nrows - i,
        {
            proof {
                assert((i + 1) * ncols <= nrows * ncols) by (nonlinear_arith)
                    requires i < nrows;
                assert((i + 1) * ncols == i * ncols + ncols) by (nonlinear_arith);
            }
            assert(i * ncols + ncols <= len);
            let base: usize = i * ncols;
            let mut row: Vec<T> = Vec::new();
            let mut j: usize = 0;
            while j < ncols
                invariant
                    j <= ncols,
                    base == i * ncols,
                    base + ncols <= data@.len(),
                    len == data@.len(),
                    row@.len() == j,
                    forall|l: int| 0 <= l < j ==> #[trigger] row@[l] == data@[base + l],
                decreases ncols - j,
            {
                row.push(data[base + j]);
                j = j + 1;
            }
            rows.push(row);
            i = i + 1;
        }
        let m = Mat { ncols, rows };
        assert forall|i: int, j: int| 0 <= i < nrows && 0 <= j < ncols implies #[trigger] m@[i][j]
            == data@[i * ncols + j] by {
            assert(m@[i] == m.rows@[i]@);
            assert(i * ncols + j < nrows * ncols) by (nonlinear_arith)
                requires 0 <= i < nrows, 0 <= j < ncols;
        }
        proof {
            m.lemma_wf();
        }
        m
    }
}

} // verus!
