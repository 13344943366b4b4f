//! The dense matrix container: `rows x cols` floats in one flat sequence,
//! column after column, with entry `(i, j)` at flat index `j * rows + i`.
use crate::float::{FloatParts, RawFloat};
use vstd::prelude::*;

verus! {

/// Mathematical model of a matrix: its shape and its entries in column-major
/// order.
pub struct MatView {
    pub rows: nat,
    pub cols: nat,
    pub data: Seq<FloatParts>,
}

impl MatView {
    /// The flat sequence holds one well-formed float per entry.
    pub open spec fn wf(self) -> bool {
        &&& self.data.len() == self.rows * self.cols
        &&& forall|k: int| 0 <= k < self.data.len() ==> (#[trigger] self.data[k]).wf()
    }

    /// Entry in row `i`, column `j`.
    pub open spec fn entry(self, i: int, j: int) -> FloatParts {
        self.data[j * self.rows + i]
    }

    /// The transposed matrix: entry `(i, j)` is this matrix's entry `(j, i)`.
    pub open spec fn transpose(self) -> MatView {
        MatView {
            rows: self.cols,
            cols: self.rows,
            data: Seq::new(
                self.rows * self.cols,
                |k: int| self.entry(k / (self.cols as int), k % (self.cols as int)),
            ),
        }
    }

    /// The matrix of the given shape whose entries are all positive zero of
    /// precision `prec`.
    pub open spec fn zeros(rows: nat, cols: nat, prec: u32) -> MatView {
        MatView { rows, cols, data: Seq::new(rows * cols, |k: int| FloatParts::zero(prec)) }
    }

    /// The square matrix with `diag` on its diagonal and positive zero of
    /// precision `prec` elsewhere.
    pub open spec fn diagonal(diag: Seq<FloatParts>, prec: u32) -> MatView {
        MatView {
            rows: diag.len(),
            cols: diag.len(),
            data: Seq::new(
                diag.len() * diag.len(),
                |k: int|
                    if k / (diag.len() as int) == k % (diag.len() as int) {
                        diag[k % (diag.len() as int)]
                    } else {
                        FloatParts::zero(prec)
                    },
            ),
        }
    }

    /// The identity matrix of the given size at precision `prec`.
    pub open spec fn identity(size: nat, prec: u32) -> MatView {
        MatView::diagonal(Seq::new(size, |i: int| FloatParts::one(prec)), prec)
    }

    /// The precision that operations on the matrix work at: that of its first
    /// entry.
    pub open spec fn precision(self) -> u32 {
        self.data[0].prec
    }
}

/// Number of floats in the sequence that are not zero.
pub open spec fn count_nonzero(data: Seq<FloatParts>) -> nat
    decreases data.len(),
{
    if data.len() == 0 {
        0
    } else {
        count_nonzero(data.drop_last()) + if data.last().is_zero() {
            0nat
        } else {
            1nat
        }
    }
}

/// Row `i`, column `j` lies inside the flat sequence, and no two positions
/// share a flat index.
pub proof fn lemma_flat_index(rows: nat, cols: nat, i: nat, j: nat)
    requires
        i < rows,
        j < cols,
    ensures
        j * rows + i < rows * cols,
        (j * rows + i) / rows == j,
        (j * rows + i) % rows == i,
{
    assert(j * rows + i < rows * cols) by (nonlinear_arith)
        requires
            i < rows,
            j < cols,
    ;
    vstd::arithmetic::div_mod::lemma_fundamental_div_mod_converse(
        (j * rows + i) as int,
        rows as int,
        j as int,
        i as int,
    );
}

/// A dense matrix of floats, stored column-major.
#[derive(Debug)]
pub struct RugMat {
    pub data: Vec<RawFloat>,
    pub rows: usize,
    pub cols: usize,
}

impl View for RugMat {
    type V = MatView;

    open spec fn view(&self) -> MatView {
        MatView {
            rows: self.rows as nat,
            cols: self.cols as nat,
            data: Seq::new(self.data@.len(), |k: int| self.data@[k]@),
        }
    }
}

impl Clone for RugMat {
    fn clone(&self) -> (out: Self)
        ensures
            out@ == self@,
            out.rows == self.rows,
            out.cols == self.cols,
    {
        let out = RugMat { data: self.data.clone(), rows: self.rows, cols: self.cols };
        assert(out@.data =~= self@.data);
        out
    }
}

impl RugMat {
    /// The flat sequence has one float per entry.
    pub open spec fn wf(&self) -> bool {
        self.data@.len() == self.rows * self.cols
    }

    /// A `rows x cols` matrix of positive zeros at the given precision.
    pub fn new(rows: usize, cols: usize, precision: u32) -> (out: RugMat)
        requires
            precision >= 1,
            rows * cols <= usize::MAX,
        ensures
            out.wf(),
            out@ == MatView::zeros(rows as nat, cols as nat, precision),
    {
        let total: usize = rows * cols;
        let mut data: Vec<RawFloat> = Vec::new();
        while data.len() < total
            invariant
                precision >= 1,
                data@.len() <= total,
                forall|k: int| 0 <= k < data@.len() ==> data@[k]@ == FloatParts::zero(precision),
            decreases total - data@.len(),
        {
            data.push(RawFloat::zero(precision));
        }
        let out = RugMat { data, rows, cols };
        assert(out@.data =~= MatView::zeros(rows as nat, cols as nat, precision).data);
        out
    }

    /// The matrix whose row `i` is `vv[i]`, cut to the length of the first
    /// row.
    pub fn from_2d_vec(vv: Vec<Vec<RawFloat>>) -> (out: RugMat)
        requires
            vv@.len() >= 1,
            forall|i: int| 0 <= i < vv@.len() ==> (#[trigger] vv@[i])@.len() >= vv@[0]@.len(),
            vv@.len() * vv@[0]@.len() <= usize::MAX,
        ensures
            out.wf(),
            out.rows == vv@.len(),
            out.cols == vv@[0]@.len(),
            forall|i: int, j: int|
                0 <= i < out.rows && 0 <= j < out.cols ==> #[trigger] out@.entry(i, j)
                    == vv@[i]@[j]@,
    {
        let rows: usize = vv.len();
        let cols: usize = vv[0].len();
        let mut data: Vec<RawFloat> = Vec::new();
        let mut j: usize = 0;
        while j < cols
            invariant
                j <= cols,
                rows == vv@.len(),
                cols == vv@[0]@.len(),
                rows >= 1,
                forall|i: int| 0 <= i < vv@.len() ==> (#[trigger] vv@[i])@.len() >= cols,
                data@.len() == j * rows,
                forall|k: int|
                    0 <= k < data@.len() ==> (#[trigger] data@[k])@ == vv@[k % (rows as int)]@[k / (
                    rows as int)]@,
            decreases cols - j,
        {
            let mut i: usize = 0;
            while i < rows
                invariant
                    i <= rows,
                    j < cols,
                    rows == vv@.len(),
                    forall|i: int| 0 <= i < vv@.len() ==> (#[trigger] vv@[i])@.len() >= cols,
                    data@.len() == j * rows + i,
                    forall|k: int|
                        0 <= k < data@.len() ==> (#[trigger] data@[k])@ == vv@[k % (
                        rows as int)]@[k / (rows as int)]@,
                decreases rows - i,
            {
                let value: RawFloat = vv[i][j].clone();
                proof {
                    lemma_flat_index(rows as nat, cols as nat, i as nat, j as nat);
                }
                data.push(value);
                i += 1;
            }
            proof {
                assert((j + 1) * rows == j * rows + rows) by (nonlinear_arith);
            }
            j += 1;
        }
        let out = RugMat { data, rows, cols };
        proof {
            assert(cols * rows == rows * cols) by (nonlinear_arith);
            assert forall|i: int, j: int| 0 <= i < out.rows && 0 <= j < out.cols implies (
            #[trigger] out@.entry(i, j)) == vv@[i]@[j]@ by {
                lemma_flat_index(rows as nat, cols as nat, i as nat, j as nat);
            }
        }
        out
    }

    /// The matrix whose row `i` starts with the floats of `vecvec[i]` and is
    /// filled up with positive zeros. Its width is the length of the first
    /// row, and the zeros have the precision of the first float of that row.
    pub fn from_vecvec(vecvec: Vec<Vec<RawFloat>>) -> (out: RugMat)
        requires
            vecvec@.len() >= 1,
            vecvec@[0]@.len() >= 1,
            forall|i: int|
                0 <= i < vecvec@.len() ==> (#[trigger] vecvec@[i])@.len() <= vecvec@[0]@.len(),
            vecvec@.len() * vecvec@[0]@.len() <= usize::MAX,
        ensures
            out.wf(),
            out.rows == vecvec@.len(),
            out.cols == vecvec@[0]@.len(),
            forall|i: int, j: int|
                0 <= i < out.rows && 0 <= j < out.cols ==> #[trigger] out@.entry(i, j) == (if j
                    < vecvec@[i]@.len() {
                    vecvec@[i]@[j]@
                } else {
                    FloatParts::zero(vecvec@[0]@[0]@.prec)
                }),
    {
        let rows: usize = vecvec.len();
        let cols: usize = vecvec[0].len();
        let precision: u32 = vecvec[0][0].prec();
        let mut data: Vec<RawFloat> = Vec::new();
        let mut j: usize = 0;
        while j < cols
            invariant
                j <= cols,
                rows == vecvec@.len(),
                rows >= 1,
                precision >= 1,
                data@.len() == j * rows,
                forall|k: int|
                    0 <= k < data@.len() ==> (#[trigger] data@[k])@ == (if k / (rows as int)
                        < vecvec@[k % (rows as int)]@.len() {
                        vecvec@[k % (rows as int)]@[k / (rows as int)]@
                    } else {
                        FloatParts::zero(precision)
                    }),
            decreases cols - j,
        {
            let mut i: usize = 0;
            while i < rows
                invariant
                    i <= rows,
                    j < cols,
                    rows == vecvec@.len(),
                    precision >= 1,
                    data@.len() == j * rows + i,
                    forall|k: int|
                        0 <= k < data@.len() ==> (#[trigger] data@[k])@ == (if k / (rows as int)
                            < vecvec@[k % (rows as int)]@.len() {
                            vecvec@[k % (rows as int)]@[k / (rows as int)]@
                        } else {
                            FloatParts::zero(precision)
                        }),
                decreases rows - i,
            {
                let value: RawFloat = if j < vecvec[i].len() {
                    vecvec[i][j].clone()
                } else {
                    RawFloat::zero(precision)
                };
                proof {
                    lemma_flat_index(rows as nat, cols as nat, i as nat, j as nat);
                }
                data.push(value);
                i += 1;
            }
            proof {
                assert((j + 1) * rows == j * rows + rows) by (nonlinear_arith);
            }
            j += 1;
        }
        let out = RugMat { data, rows, cols };
        proof {
            assert(cols * rows == rows * cols) by (nonlinear_arith);
            assert forall|i: int, j: int| 0 <= i < out.rows && 0 <= j < out.cols implies (
            #[trigger] out@.entry(i, j)) == (if j < vecvec@[i]@.len() {
                vecvec@[i]@[j]@
            } else {
                FloatParts::zero(vecvec@[0]@[0]@.prec)
            }) by {
                lemma_flat_index(rows as nat, cols as nat, i as nat, j as nat);
            }
        }
        out
    }

    /// The square matrix with the floats of `diag` on its diagonal and
    /// positive zeros of the given precision elsewhere.
    pub fn diagonal(diag: &Vec<RawFloat>, precision: u32) -> (out: RugMat)
        requires
            precision >= 1,
            diag@.len() * diag@.len() <= usize::MAX,
        ensures
            out.wf(),
            out@ == MatView::diagonal(Seq::new(diag@.len(), |i: int| diag@[i]@), precision),
    {
        let size: usize = diag.len();
        let mut data: Vec<RawFloat> = Vec::new();
        let mut j: usize = 0;
        while j < size
            invariant
                j <= size,
                size == diag@.len(),
                precision >= 1,
                data@.len() == j * size,
                forall|k: int|
                    0 <= k < data@.len() ==> (#[trigger] data@[k])@ == (if k / (size as int) == k
                        % (size as int) {
                        diag@[k % (size as int)]@
                    } else {
                        FloatParts::zero(precision)
                    }),
            decreases size - j,
        {
            let mut i: usize = 0;
            while i < size
                invariant
                    i <= size,
                    j < size,
                    size == diag@.len(),
                    precision >= 1,
                    data@.len() == j * size + i,
                    forall|k: int|
                        0 <= k < data@.len() ==> (#[trigger] data@[k])@ == (if k / (size as int)
                            == k % (size as int) {
                            diag@[k % (size as int)]@
                        } else {
                            FloatParts::zero(precision)
                        }),
                decreases size - i,
            {
                let value: RawFloat = if i == j {
                    diag[i].clone()
                } else {
                    RawFloat::zero(precision)
                };
                proof {
                    lemma_flat_index(size as nat, size as nat, i as nat, j as nat);
                }
                data.push(value);
                i += 1;
            }
            proof {
                assert((j + 1) * size == j * size + size) by (nonlinear_arith);
            }
            j += 1;
        }
        let out = RugMat { data, rows: size, cols: size };
        assert(out@.data =~= MatView::diagonal(
            Seq::new(diag@.len(), |i: int| diag@[i]@),
            precision,
        ).data);
        out
    }

    /// The identity matrix of the given size at the given precision.
    pub fn identity(size: usize, precision: u32) -> (out: RugMat)
        requires
            precision >= 1,
            size * size <= usize::MAX,
        ensures
            out.wf(),
            out@ == MatView::identity(size as nat, precision),
    {
        let mut ones: Vec<RawFloat> = Vec::new();
        while ones.len() < size
            invariant
                precision >= 1,
                ones@.len() <= size,
                forall|i: int| 0 <= i < ones@.len() ==> (#[trigger] ones@[i])@ == FloatParts::one(
                    precision,
                ),
            decreases size - ones@.len(),
        {
            ones.push(RawFloat::one(precision));
        }
        assert(Seq::new(ones@.len(), |i: int| ones@[i]@) =~= Seq::new(
            size as nat,
            |i: int| FloatParts::one(precision),
        ));
        RugMat::diagonal(&ones, precision)
    }

    /// The precision that operations on the matrix work at: that of its first
    /// entry.
    pub fn precision(&self) -> (p: u32)
        requires
            self.data@.len() > 0,
        ensures
            p == self@.precision(),
            p >= 1,
    {
        self.data[0].prec()
    }

    /// Number of entries that are not zero.
    pub fn l0_norm(&self) -> (count: usize)
        ensures
            count == count_nonzero(self@.data),
    {
        let n: usize = self.data.len();
        let mut count: usize = 0;
        let mut k: usize = 0;
        while k < n
            invariant
                k <= n,
                n == self.data@.len(),
                count <= k,
                count == count_nonzero(self@.data.take(k as int)),
            decreases n - k,
        {
            proof {
                assert(self@.data.take(k + 1).drop_last() =~= self@.data.take(k as int));
            }
            if !self.data[k].is_zero() {
                count += 1;
            }
            k += 1;
        }
        proof {
            assert(self@.data.take(n as int) =~= self@.data);
        }
        count
    }

    /// Flat index of the entry in row `row`, column `col`.
    pub fn flat_index(&self, row: usize, col: usize) -> (at: usize)
        requires
            self.wf(),
            row < self.rows,
            col < self.cols,
        ensures
            at == col * self.rows + row,
            at < self.data@.len(),
    {
        let len: usize = self.data.len();
        proof {
            lemma_flat_index(self.rows as nat, self.cols as nat, row as nat, col as nat);
            assert(0 <= col * self.rows) by (nonlinear_arith)
                requires
                    0 <= col,
                    0 <= self.rows,
            ;
        }
        col * self.rows + row
    }

    /// Entry in row `row`, column `col`.
    pub fn get(&self, row: usize, col: usize) -> (out: &RawFloat)
        requires
            self.wf(),
            row < self.rows,
            col < self.cols,
        ensures
            out@ == self@.entry(row as int, col as int),
    {
        let at: usize = self.flat_index(row, col);
        &self.data[at]
    }

    /// Mutable access to the entry in row `row`, column `col`. Whatever is
    /// stored through the reference becomes that entry; the shape and all
    /// other entries stay.
    pub fn get_mut(&mut self, row: usize, col: usize) -> (out: &mut RawFloat)
        requires
            old(self).wf(),
            row < old(self).rows,
            col < old(self).cols,
        ensures
            out@ == old(self)@.entry(row as int, col as int),
            final(self).wf(),
            final(self)@.rows == old(self)@.rows,
            final(self)@.cols == old(self)@.cols,
            final(self)@.data == old(self)@.data.update(
                col * old(self).rows + row,
                final(out)@,
            ),
    {
        let at: usize = self.flat_index(row, col);
        &mut self.data[at]
    }
}

/// A matrix seen with rows and columns exchanged. Nothing is copied: the view
/// borrows the matrix.
pub struct Transpose<'a> {
    pub mat: &'a RugMat,
}

impl<'a> View for Transpose<'a> {
    type V = MatView;

    open spec fn view(&self) -> MatView {
        self.mat@.transpose()
    }
}

impl<'a> Transpose<'a> {
    pub fn new(mat: &'a RugMat) -> (out: Self)
        ensures
            out.mat == mat,
    {
        Transpose { mat }
    }

    /// Number of rows of the view: the matrix's columns.
    pub fn rows(&self) -> (n: usize)
        ensures
            n == self@.rows,
    {
        self.mat.cols
    }

    /// Number of columns of the view: the matrix's rows.
    pub fn cols(&self) -> (n: usize)
        ensures
            n == self@.cols,
    {
        self.mat.rows
    }

    /// Entry in row `i`, column `j` of the view: the matrix's entry in row `j`,
    /// column `i`.
    pub fn get(&self, i: usize, j: usize) -> (out: &RawFloat)
        requires
            self.mat.wf(),
            i < self@.rows,
            j < self@.cols,
        ensures
            out@ == self@.entry(i as int, j as int),
            out@ == self.mat@.entry(j as int, i as int),
    {
        proof {
            lemma_flat_index(self.mat.cols as nat, self.mat.rows as nat, i as nat, j as nat);
            assert(j * self.mat.cols + i < self.mat.rows * self.mat.cols);
        }
        self.mat.get(j, i)
    }
}

/// The three parts of a singular value decomposition: left singular vectors,
/// singular values in no particular order, and right singular vectors
/// transposed.
#[derive(Debug)]
pub struct SVD {
    pub u: RugMat,
    pub s: Vec<RawFloat>,
    pub vt: RugMat,
}

} // verus!
