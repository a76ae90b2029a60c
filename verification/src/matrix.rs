//! The dense matrix kernel.
//!
//! A matrix is a row-major buffer of `rows * cols` scalars.  Its view is
//! the sequence of its rows, and every operation's contract pins each
//! entry of the result down as a specification-level expression over the
//! scalar operations of [`crate::complex::Scalar`].

use crate::complex::Scalar;
use crate::error::Error;
use vstd::prelude::*;

verus! {

/// Every entry of a row sequence is a well-formed scalar.
pub open spec fn mat_entries_wf<T: Scalar>(m: Seq<Seq<T>>) -> bool {
    forall|i: int, j: int|
        0 <= i < m.len() && 0 <= j < m[i].len() ==> (#[trigger] m[i][j]).wf()
}

/// Column `j` of a row sequence.
pub open spec fn mat_column<T>(m: Seq<Seq<T>>, j: int) -> Seq<T> {
    Seq::new(m.len(), |k: int| m[k][j])
}

/// The inner product of two equally long scalar sequences.
pub open spec fn dot_entry<T: Scalar>(a: Seq<T>, b: Seq<T>) -> T
    decreases a.len(),
{
    if a.len() == 0 {
        T::spec_zero()
    } else {
        dot_entry(a.drop_last(), b.drop_last()).spec_add(a.last().spec_mul(b.last()))
    }
}

/// The matrix product of two row sequences; `b_cols` is the column count
/// of `b` (which the sequence itself cannot tell when `b` has no rows).
pub open spec fn spec_dot<T: Scalar>(a: Seq<Seq<T>>, b: Seq<Seq<T>>, b_cols: nat) -> Seq<Seq<T>> {
    Seq::new(a.len(), |i: int| Seq::new(b_cols, |j: int| dot_entry(a[i], mat_column(b, j))))
}

/// The Kronecker product of two row sequences; `a_cols` and `b_cols` are
/// the column counts.  The entry at row `i * b.len() + k`, column
/// `j * b_cols + l` is `a[i][j] * b[k][l]`.
pub open spec fn spec_tensor<T: Scalar>(
    a: Seq<Seq<T>>,
    b: Seq<Seq<T>>,
    a_cols: nat,
    b_cols: nat,
) -> Seq<Seq<T>> {
    Seq::new(
        a.len() * b.len(),
        |r: int|
            Seq::new(
                a_cols * b_cols,
                |c: int|
                    a[r / b.len() as int][c / b_cols as int].spec_mul(
                        b[r % b.len() as int][c % b_cols as int],
                    ),
            ),
    )
}

/// The identity: ones on the diagonal, zeroes elsewhere.
pub open spec fn spec_identity<T: Scalar>(n: nat) -> Seq<Seq<T>> {
    Seq::new(
        n,
        |i: int|
            Seq::new(
                n,
                |j: int|
                    if i == j {
                        T::spec_one()
                    } else {
                        T::spec_zero()
                    },
            ),
    )
}

/// A flat row-major index stays inside the buffer.
proof fn lemma_rm_index(row: int, col: int, rows: int, cols: int)
    requires
        0 <= row < rows,
        0 <= col < cols,
    ensures
        0 <= row * cols + col < rows * cols,
{
    assert(row * cols + col < rows * cols) by (nonlinear_arith)
        requires
            0 <= row < rows,
            0 <= col < cols,
    ;
}

/// Distinct positions have distinct flat row-major indices.
proof fn lemma_rm_index_injective(r1: int, c1: int, r2: int, c2: int, cols: int)
    requires
        0 <= c1 < cols,
        0 <= c2 < cols,
        0 <= r1,
        0 <= r2,
        r1 * cols + c1 == r2 * cols + c2,
    ensures
        r1 == r2 && c1 == c2,
{
    assert(r1 == r2 && c1 == c2) by (nonlinear_arith)
        requires
            0 <= c1 < cols,
            0 <= c2 < cols,
            0 <= r1,
            0 <= r2,
            r1 * cols + c1 == r2 * cols + c2,
    ;
}

/// A nonnegative number below `b * d` has quotient below `b`.
pub proof fn lemma_div_below(x: int, d: int, b: int)
    requires
        0 <= x,
        0 < d,
        x < b * d,
    ensures
        0 <= x / d < b,
        0 <= x % d < d,
{
    vstd::arithmetic::div_mod::lemma_fundamental_div_mod(x, d);
    vstd::arithmetic::div_mod::lemma_mod_bound(x, d);
    vstd::arithmetic::div_mod::lemma_div_pos_is_pos(x, d);
    let q = x / d;
    if q >= b {
        assert(d * q >= b * d) by (nonlinear_arith)
            requires
                q >= b,
                d > 0,
        ;
        assert(false);
    }
}

/// Extending both sequences by one term adds one product to their inner
/// product.
proof fn lemma_dot_entry_step<T: Scalar>(a: Seq<T>, b: Seq<T>, k: int)
    requires
        0 <= k < a.len(),
        0 <= k < b.len(),
    ensures
        dot_entry(a.subrange(0, k + 1), b.subrange(0, k + 1)) == dot_entry(
            a.subrange(0, k),
            b.subrange(0, k),
        ).spec_add(a[k].spec_mul(b[k])),
{
    assert(a.subrange(0, k + 1).drop_last() =~= a.subrange(0, k));
    assert(b.subrange(0, k + 1).drop_last() =~= b.subrange(0, k));
    assert(a.subrange(0, k + 1).last() == a[k]);
    assert(b.subrange(0, k + 1).last() == b[k]);
}

/// A dense, row-major matrix of scalars.
#[derive(Debug, Clone, PartialEq)]
pub struct Matrix<T> {
    rows: usize,
    cols: usize,
    data: Vec<T>,
}

impl<T: Scalar> View for Matrix<T> {
    type V = Seq<Seq<T>>;

    closed spec fn view(&self) -> Seq<Seq<T>> {
        Seq::new(
            self.rows as nat,
            |i: int| Seq::new(self.cols as nat, |j: int| self.data@[i * self.cols + j]),
        )
    }
}

impl<T: Scalar> Matrix<T> {
    pub closed spec fn spec_rows(&self) -> nat {
        self.rows as nat
    }

    pub closed spec fn spec_cols(&self) -> nat {
        self.cols as nat
    }

    /// The matrix's buffer holds exactly `rows * cols` well-formed
    /// scalars.
    pub closed spec fn wf(&self) -> bool {
        &&& self.data@.len() == self.spec_rows() * self.spec_cols()
        &&& forall|k: int| 0 <= k < self.data@.len() ==> (#[trigger] self.data@[k]).wf()
    }

    /// The view is the sequence of the rows.
    pub broadcast proof fn lemma_view_shape(&self)
        ensures
            (#[trigger] self@).len() == self.spec_rows(),
            forall|i: int| 0 <= i < self@.len() ==> (#[trigger] self@[i]).len() == self.spec_cols(),
    {
    }

    /// A well-formed matrix's entries are well-formed.
    pub broadcast proof fn lemma_wf_entries(&self)
        requires
            #[trigger] self.wf(),
        ensures
            mat_entries_wf(self@),
    {
        assert forall|i: int, j: int|
            0 <= i < self@.len() && 0 <= j < self@[i].len() implies (#[trigger] self@[i][j]).wf() by {
            lemma_rm_index(i, j, self.spec_rows() as int, self.spec_cols() as int);
        }
    }

    /// Reads the entry at `row`, `col`; the position must be inside the
    /// matrix.  This is the kernel's internal accessor; [`Matrix::get`]
    /// is the fallible public one.
    pub(crate) fn at(&self, row: usize, col: usize) -> (r: T)
        requires
            self.wf(),
            row < self.spec_rows(),
            col < self.spec_cols(),
        ensures
            r == self@[row as int][col as int],
    {
        let _n = self.data.len();
        proof {
            lemma_rm_index(row as int, col as int, self.spec_rows() as int, self.spec_cols() as int);
        }
        self.data[row * self.cols + col]
    }

    /// Writes the entry at `row`, `col`; the position must be inside the
    /// matrix.  [`Matrix::set`] is the fallible public version.
    fn put(&mut self, row: usize, col: usize, value: T)
        requires
            old(self).wf(),
            row < old(self).spec_rows(),
            col < old(self).spec_cols(),
            value.wf(),
        ensures
            final(self).wf(),
            final(self).spec_rows() == old(self).spec_rows(),
            final(self).spec_cols() == old(self).spec_cols(),
            final(self)@ == old(self)@.update(
                row as int,
                old(self)@[row as int].update(col as int, value),
            ),
    {
        let _n = self.data.len();
        proof {
            lemma_rm_index(row as int, col as int, self.spec_rows() as int, self.spec_cols() as int);
        }
        let idx = row * self.cols + col;
        self.data.set(idx, value);
        proof {
            assert forall|i: int, j: int| 0 <= i < self.spec_rows() && 0 <= j < self.spec_cols()
                && !(i == row as int && j == col as int) implies #[trigger] self.data@[i * self.cols
                + j] == old(self).data@[i * self.cols + j] by {
                lemma_rm_index(i, j, self.spec_rows() as int, self.spec_cols() as int);
                if i * self.cols + j == row as int * self.cols + col {
                    lemma_rm_index_injective(
                        i,
                        j,
                        row as int,
                        col as int,
                        self.spec_cols() as int,
                    );
                }
            }
            assert(self@ =~~= old(self)@.update(
                row as int,
                old(self)@[row as int].update(col as int, value),
            ));
        }
    }

    /// Constructs a `rows` by `cols` matrix with every entry the additive
    /// identity.
    pub fn new_with_default_elems(rows: usize, cols: usize) -> (r: Matrix<T>)
        requires
            rows * cols <= usize::MAX,
        ensures
            r.wf(),
            r.spec_rows() == rows,
            r.spec_cols() == cols,
            forall|i: int, j: int|
                0 <= i < rows && 0 <= j < cols ==> r@[i][j] == T::spec_zero(),
    {
        let total = rows * cols;
        let mut data: Vec<T> = Vec::new();
        let mut k: usize = 0;
        proof {
            T::law_wf_zero();
        }
        while k < total
            invariant
                k <= total,
                data@.len() == k,
                forall|q: int| 0 <= q < k ==> data@[q] == T::spec_zero(),
                T::spec_zero().wf(),
            decreases total - k,
        {
            data.push(T::zero());
            k = k + 1;
        }
        let r = Matrix { rows, cols, data };
        proof {
            assert forall|i: int, j: int| 0 <= i < rows && 0 <= j < cols implies r@[i][j]
                == T::spec_zero() by {
                lemma_rm_index(i, j, rows as int, cols as int);
            }
        }
        r
    }

    /// Wraps `contents` as a `rows` by `cols` matrix.  Fails with
    /// [`Error::ShapeMismatch`] when the buffer's length does not match
    /// the declared dimensions.
    pub fn new(rows: usize, cols: usize, contents: Vec<T>) -> (r: Result<Matrix<T>, Error>)
        ensures
            rows * cols == contents@.len() ==> {
                &&& r is Ok
                &&& r->Ok_0.spec_rows() == rows
                &&& r->Ok_0.spec_cols() == cols
                &&& forall|i: int, j: int|
                    0 <= i < rows && 0 <= j < cols ==> r->Ok_0@[i][j] == contents@[i * cols + j]
                &&& (forall|k: int|
                    0 <= k < contents@.len() ==> (#[trigger] contents@[k]).wf()) ==> r->Ok_0.wf()
            },
            rows * cols != contents@.len() ==> r == Result::<Matrix<T>, Error>::Err(
                Error::ShapeMismatch,
            ),
    {
        if rows != 0 && contents.len() / rows != cols {
            proof {
                if rows * cols == contents@.len() {
                    vstd::arithmetic::div_mod::lemma_div_multiples_vanish(
                        cols as int,
                        rows as int,
                    );
                    assert(rows as int * cols as int == cols as int * rows as int)
                        by (nonlinear_arith);
                }
            }
            return Err(Error::ShapeMismatch);
        }
        if rows == 0 && contents.len() != 0 {
            return Err(Error::ShapeMismatch);
        }
        if rows != 0 && contents.len() % rows != 0 {
            proof {
                if rows * cols == contents@.len() {
                    vstd::arithmetic::div_mod::lemma_mod_multiples_basic(
                        cols as int,
                        rows as int,
                    );
                    assert(rows as int * cols as int == cols as int * rows as int)
                        by (nonlinear_arith);
                }
            }
            return Err(Error::ShapeMismatch);
        }
        proof {
            if rows != 0 {
                let q = contents@.len() as int / rows as int;
                let m = contents@.len() as int % rows as int;
                vstd::arithmetic::div_mod::lemma_fundamental_div_mod(
                    contents@.len() as int,
                    rows as int,
                );
                assert(contents@.len() == rows as int * cols as int) by (nonlinear_arith)
                    requires
                        contents@.len() == rows as int * q + m,
                        m == 0,
                        q == cols as int,
                ;
            }
        }
        let r = Matrix { rows, cols, data: contents };
        proof {
            assert forall|i: int, j: int| 0 <= i < rows && 0 <= j < cols implies r@[i][j]
                == r.data@[i * cols + j] by {
                lemma_rm_index(i, j, rows as int, cols as int);
            }
        }
        Ok(r)
    }

    /// Reads the entry at `row`, `col`, or fails with
    /// [`Error::IndexOutOfBounds`] when the position lies outside the
    /// matrix.
    pub fn get(&self, row: usize, col: usize) -> (r: Result<T, Error>)
        requires
            self.wf(),
        ensures
            row < self.spec_rows() && col < self.spec_cols() ==> r
                == Result::<T, Error>::Ok(self@[row as int][col as int]),
            !(row < self.spec_rows() && col < self.spec_cols()) ==> r == Result::<T, Error>::Err(
                Error::IndexOutOfBounds,
            ),
    {
        if row < self.rows && col < self.cols {
            Ok(self.at(row, col))
        } else {
            Err(Error::IndexOutOfBounds)
        }
    }

    /// Replaces the entry at `row`, `col` with `value`, or fails with
    /// [`Error::IndexOutOfBounds`], leaving the matrix unchanged, when
    /// the position lies outside the matrix.
    pub fn set(&mut self, row: usize, col: usize, value: T) -> (r: Result<(), Error>)
        requires
            old(self).wf(),
            value.wf(),
        ensures
            final(self).wf(),
            final(self).spec_rows() == old(self).spec_rows(),
            final(self).spec_cols() == old(self).spec_cols(),
            row < old(self).spec_rows() && col < old(self).spec_cols() ==> {
                &&& r is Ok
                &&& final(self)@ == old(self)@.update(
                    row as int,
                    old(self)@[row as int].update(col as int, value),
                )
            },
            !(row < old(self).spec_rows() && col < old(self).spec_cols()) ==> {
                &&& r == Result::<(), Error>::Err(Error::IndexOutOfBounds)
                &&& final(self)@ == old(self)@
            },
    {
        if row < self.rows && col < self.cols {
            self.put(row, col, value);
            Ok(())
        } else {
            Err(Error::IndexOutOfBounds)
        }
    }

    /// The transpose: the entry at `row`, `col` moves to `col`, `row`.
    pub fn transpose(&self) -> (r: Matrix<T>)
        requires
            self.wf(),
        ensures
            r.wf(),
            r.spec_rows() == self.spec_cols(),
            r.spec_cols() == self.spec_rows(),
            forall|i: int, j: int|
                0 <= i < self.spec_rows() && 0 <= j < self.spec_cols() ==> r@[j][i] == self@[i][j],
    {
        let _n = self.data.len();
        proof {
            assert(self.spec_cols() * self.spec_rows() == self.spec_rows() * self.spec_cols())
                by (nonlinear_arith);
            self.lemma_wf_entries();
        }
        let mut result = Matrix::new_with_default_elems(self.cols, self.rows);
        let mut i: usize = 0;
        while i < self.rows
            invariant
                i <= self.spec_rows(),
                self.wf(),
                mat_entries_wf(self@),
                result.wf(),
                result.spec_rows() == self.spec_cols(),
                result.spec_cols() == self.spec_rows(),
                forall|p: int, q: int|
                    0 <= p < i && 0 <= q < self.spec_cols() ==> result@[q][p] == self@[p][q],
            decreases self.spec_rows() - i,
        {
            let mut j: usize = 0;
            while j < self.cols
                invariant
                    i < self.spec_rows(),
                    j <= self.spec_cols(),
                    self.wf(),
                    mat_entries_wf(self@),
                    result.wf(),
                    result.spec_rows() == self.spec_cols(),
                    result.spec_cols() == self.spec_rows(),
                    forall|p: int, q: int|
                        0 <= p < i && 0 <= q < self.spec_cols() ==> result@[q][p] == self@[p][q],
                    forall|q: int| 0 <= q < j ==> result@[q][i as int] == self@[i as int][q],
                decreases self.spec_cols() - j,
            {
                result.put(j, i, self.at(i, j));
                j = j + 1;
            }
            i = i + 1;
        }
        result
    }

    /// The Hermitian (conjugate) transpose: the transpose with every
    /// entry replaced by its complex conjugate.  It converts between the
    /// row-vector and column-vector representations of a quantum state.
    pub fn hermitian_transpose(&self) -> (r: Matrix<T>)
        requires
            self.wf(),
        ensures
            r.wf(),
            r.spec_rows() == self.spec_cols(),
            r.spec_cols() == self.spec_rows(),
            forall|i: int, j: int|
                0 <= i < self.spec_rows() && 0 <= j < self.spec_cols() ==> r@[j][i] == self@[i][j].spec_conj(),
    {
        let _n = self.data.len();
        proof {
            assert(self.spec_cols() * self.spec_rows() == self.spec_rows() * self.spec_cols())
                by (nonlinear_arith);
            self.lemma_wf_entries();
        }
        let mut result = Matrix::new_with_default_elems(self.cols, self.rows);
        let mut i: usize = 0;
        while i < self.rows
            invariant
                i <= self.spec_rows(),
                self.wf(),
                mat_entries_wf(self@),
                result.wf(),
                result.spec_rows() == self.spec_cols(),
                result.spec_cols() == self.spec_rows(),
                forall|p: int, q: int|
                    0 <= p < i && 0 <= q < self.spec_cols() ==> result@[q][p] == self@[p][q].spec_conj(),
            decreases self.spec_rows() - i,
        {
            let mut j: usize = 0;
            while j < self.cols
                invariant
                    i < self.spec_rows(),
                    j <= self.spec_cols(),
                    self.wf(),
                    mat_entries_wf(self@),
                    result.wf(),
                    result.spec_rows() == self.spec_cols(),
                    result.spec_cols() == self.spec_rows(),
                    forall|p: int, q: int|
                        0 <= p < i && 0 <= q < self.spec_cols() ==> result@[q][p] == self@[p][q].spec_conj(),
                    forall|q: int|
                        0 <= q < j ==> result@[q][i as int] == self@[i as int][q].spec_conj(),
                decreases self.spec_cols() - j,
            {
                let v = self.at(i, j);
                proof {
                    T::law_wf_conj(self@[i as int][j as int]);
                }
                result.put(j, i, v.conj());
                j = j + 1;
            }
            i = i + 1;
        }
        result
    }

    /// Multiplies every entry by `scalar`.
    pub fn scalar_mul(&self, scalar: T) -> (r: Matrix<T>)
        requires
            self.wf(),
            scalar.wf(),
        ensures
            r.wf(),
            r.spec_rows() == self.spec_rows(),
            r.spec_cols() == self.spec_cols(),
            forall|i: int, j: int|
                0 <= i < self.spec_rows() && 0 <= j < self.spec_cols() ==> r@[i][j]
                    == self@[i][j].spec_mul(scalar),
    {
        let _n = self.data.len();
        proof {
            self.lemma_wf_entries();
        }
        let mut result = Matrix::new_with_default_elems(self.rows, self.cols);
        let mut i: usize = 0;
        while i < self.rows
            invariant
                i <= self.spec_rows(),
                self.wf(),
                scalar.wf(),
                mat_entries_wf(self@),
                result.wf(),
                result.spec_rows() == self.spec_rows(),
                result.spec_cols() == self.spec_cols(),
                forall|p: int, q: int|
                    0 <= p < i && 0 <= q < self.spec_cols() ==> result@[p][q] == self@[p][q].spec_mul(scalar),
            decreases self.spec_rows() - i,
        {
            let mut j: usize = 0;
            while j < self.cols
                invariant
                    i < self.spec_rows(),
                    j <= self.spec_cols(),
                    self.wf(),
                    scalar.wf(),
                    mat_entries_wf(self@),
                    result.wf(),
                    result.spec_rows() == self.spec_rows(),
                    result.spec_cols() == self.spec_cols(),
                    forall|p: int, q: int|
                        0 <= p < i && 0 <= q < self.spec_cols() ==> result@[p][q] == self@[p][q].spec_mul(scalar),
                    forall|q: int|
                        0 <= q < j ==> result@[i as int][q] == self@[i as int][q].spec_mul(scalar),
                decreases self.spec_cols() - j,
            {
                let v = self.at(i, j);
                proof {
                    T::law_wf_mul(self@[i as int][j as int], scalar);
                }
                result.put(i, j, v.mul(scalar));
                j = j + 1;
            }
            i = i + 1;
        }
        result
    }

    /// The entrywise sum.  Fails with [`Error::DimensionMismatch`] when
    /// the shapes differ.
    pub fn add(&self, other: &Matrix<T>) -> (r: Result<Matrix<T>, Error>)
        requires
            self.wf(),
            other.wf(),
        ensures
            self.spec_rows() == other.spec_rows() && self.spec_cols() == other.spec_cols() ==> {
                &&& r is Ok
                &&& r->Ok_0.wf()
                &&& r->Ok_0.spec_rows() == self.spec_rows()
                &&& r->Ok_0.spec_cols() == self.spec_cols()
                &&& forall|i: int, j: int|
                    0 <= i < self.spec_rows() && 0 <= j < self.spec_cols() ==> r->Ok_0@[i][j]
                        == self@[i][j].spec_add(other@[i][j])
            },
            !(self.spec_rows() == other.spec_rows() && self.spec_cols() == other.spec_cols())
                ==> r == Result::<Matrix<T>, Error>::Err(Error::DimensionMismatch),
    {
        if self.rows != other.rows || self.cols != other.cols {
            return Err(Error::DimensionMismatch);
        }
        let _n = self.data.len();
        proof {
            self.lemma_wf_entries();
            other.lemma_wf_entries();
        }
        let mut result = Matrix::new_with_default_elems(self.rows, self.cols);
        let mut i: usize = 0;
        while i < self.rows
            invariant
                i <= self.spec_rows(),
                self.wf(),
                other.wf(),
                mat_entries_wf(self@),
                mat_entries_wf(other@),
                other.spec_rows() == self.spec_rows(),
                other.spec_cols() == self.spec_cols(),
                result.wf(),
                result.spec_rows() == self.spec_rows(),
                result.spec_cols() == self.spec_cols(),
                forall|p: int, q: int|
                    0 <= p < i && 0 <= q < self.spec_cols() ==> result@[p][q] == self@[p][q].spec_add(other@[p][q]),
            decreases self.spec_rows() - i,
        {
            let mut j: usize = 0;
            while j < self.cols
                invariant
                    i < self.spec_rows(),
                    j <= self.spec_cols(),
                    self.wf(),
                    other.wf(),
                    mat_entries_wf(self@),
                    mat_entries_wf(other@),
                    other.spec_rows() == self.spec_rows(),
                    other.spec_cols() == self.spec_cols(),
                    result.wf(),
                    result.spec_rows() == self.spec_rows(),
                    result.spec_cols() == self.spec_cols(),
                    forall|p: int, q: int|
                        0 <= p < i && 0 <= q < self.spec_cols() ==> result@[p][q] == self@[p][q].spec_add(other@[p][q]),
                    forall|q: int|
                        0 <= q < j ==> result@[i as int][q] == self@[i as int][q].spec_add(other@[i as int][q]),
                decreases self.spec_cols() - j,
            {
                let v = self.at(i, j);
                let w = other.at(i, j);
                proof {
                    T::law_wf_add(self@[i as int][j as int], other@[i as int][j as int]);
                }
                result.put(i, j, v.add(w));
                j = j + 1;
            }
            i = i + 1;
        }
        Ok(result)
    }

    /// The matrix product.  Fails with [`Error::DimensionMismatch`] when
    /// the left factor's column count differs from the right factor's row
    /// count; otherwise the entry at `i`, `j` of the result is the inner
    /// product of row `i` of `self` and column `j` of `rhs`.
    pub fn dot_product(&self, rhs: &Matrix<T>) -> (r: Result<Matrix<T>, Error>)
        requires
            self.wf(),
            rhs.wf(),
            self.spec_cols() == rhs.spec_rows() ==> self.spec_rows() * rhs.spec_cols()
                <= usize::MAX,
        ensures
            self.spec_cols() == rhs.spec_rows() ==> {
                &&& r is Ok
                &&& r->Ok_0.wf()
                &&& r->Ok_0.spec_rows() == self.spec_rows()
                &&& r->Ok_0.spec_cols() == rhs.spec_cols()
                &&& r->Ok_0@ == spec_dot(self@, rhs@, rhs.spec_cols())
            },
            self.spec_cols() != rhs.spec_rows() ==> r == Result::<Matrix<T>, Error>::Err(
                Error::DimensionMismatch,
            ),
    {
        if self.cols != rhs.rows {
            return Err(Error::DimensionMismatch);
        }
        proof {
            self.lemma_wf_entries();
            rhs.lemma_wf_entries();
        }
        let mut result = Matrix::new_with_default_elems(self.rows, rhs.cols);
        let mut i: usize = 0;
        while i < self.rows
            invariant
                i <= self.spec_rows(),
                self.wf(),
                rhs.wf(),
                mat_entries_wf(self@),
                mat_entries_wf(rhs@),
                self.spec_cols() == rhs.spec_rows(),
                result.wf(),
                result.spec_rows() == self.spec_rows(),
                result.spec_cols() == rhs.spec_cols(),
                forall|p: int, q: int|
                    0 <= p < i && 0 <= q < rhs.spec_cols() ==> result@[p][q] == dot_entry(
                        self@[p],
                        mat_column(rhs@, q),
                    ),
            decreases self.spec_rows() - i,
        {
            let mut j: usize = 0;
            while j < rhs.cols
                invariant
                    i < self.spec_rows(),
                    j <= rhs.spec_cols(),
                    self.wf(),
                    rhs.wf(),
                    mat_entries_wf(self@),
                    mat_entries_wf(rhs@),
                    self.spec_cols() == rhs.spec_rows(),
                    result.wf(),
                    result.spec_rows() == self.spec_rows(),
                    result.spec_cols() == rhs.spec_cols(),
                    forall|p: int, q: int|
                        0 <= p < i && 0 <= q < rhs.spec_cols() ==> result@[p][q] == dot_entry(
                            self@[p],
                            mat_column(rhs@, q),
                        ),
                    forall|q: int|
                        0 <= q < j ==> result@[i as int][q] == dot_entry(
                            self@[i as int],
                            mat_column(rhs@, q),
                        ),
                decreases rhs.spec_cols() - j,
            {
                let mut sum = T::zero();
                let mut k: usize = 0;
                proof {
                    T::law_wf_zero();
                    assert(self@[i as int].subrange(0, 0) =~= Seq::<T>::empty());
                    assert(mat_column(rhs@, j as int).subrange(0, 0) =~= Seq::<T>::empty());
                }
                while k < self.cols
                    invariant
                        i < self.spec_rows(),
                        j < rhs.spec_cols(),
                        k <= self.spec_cols(),
                        self.wf(),
                        rhs.wf(),
                        mat_entries_wf(self@),
                        mat_entries_wf(rhs@),
                        self.spec_cols() == rhs.spec_rows(),
                        sum.wf(),
                        sum == dot_entry(
                            self@[i as int].subrange(0, k as int),
                            mat_column(rhs@, j as int).subrange(0, k as int),
                        ),
                    decreases self.spec_cols() - k,
                {
                    let v = self.at(i, k);
                    let w = rhs.at(k, j);
                    proof {
                        lemma_dot_entry_step(
                            self@[i as int],
                            mat_column(rhs@, j as int),
                            k as int,
                        );
                        T::law_wf_mul(self@[i as int][k as int], rhs@[k as int][j as int]);
                        T::law_wf_add(sum, self@[i as int][k as int].spec_mul(rhs@[k as int][j as int]));
                    }
                    sum = sum.add(v.mul(w));
                    k = k + 1;
                }
                proof {
                    assert(self@[i as int].subrange(0, self.spec_cols() as int) =~= self@[i as int]);
                    assert(mat_column(rhs@, j as int).subrange(0, self.spec_cols() as int)
                        =~= mat_column(rhs@, j as int));
                }
                result.put(i, j, sum);
                j = j + 1;
            }
            i = i + 1;
        }
        proof {
            assert(result@ =~~= spec_dot(self@, rhs@, rhs.spec_cols()));
        }
        Ok(result)
    }

    /// The Kronecker (tensor) product.  The operand order is significant:
    /// `self`'s index space forms the more significant part of the
    /// result's index space.  The entry at row `i * other.rows + k`,
    /// column `j * other.cols + l` is `self[i][j] * other[k][l]`.
    pub fn tensor_product(&self, other: &Matrix<T>) -> (r: Matrix<T>)
        requires
            self.wf(),
            other.wf(),
            self.spec_rows() * other.spec_rows() <= usize::MAX,
            self.spec_cols() * other.spec_cols() <= usize::MAX,
            (self.spec_rows() * other.spec_rows()) * (self.spec_cols() * other.spec_cols())
                <= usize::MAX,
        ensures
            r.wf(),
            r.spec_rows() == self.spec_rows() * other.spec_rows(),
            r.spec_cols() == self.spec_cols() * other.spec_cols(),
            r@ == spec_tensor(self@, other@, self.spec_cols(), other.spec_cols()),
            forall|i: int, j: int, k: int, l: int|
                0 <= i < self.spec_rows() && 0 <= j < self.spec_cols() && 0 <= k
                    < other.spec_rows() && 0 <= l < other.spec_cols() ==> r@[i
                    * other.spec_rows() + k][j * other.spec_cols() + l] == self@[i][j].spec_mul(
                    other@[k][l],
                ),
    {
        proof {
            self.lemma_wf_entries();
            other.lemma_wf_entries();
        }
        let t_rows = self.rows * other.rows;
        let t_cols = self.cols * other.cols;
        let mut result = Matrix::new_with_default_elems(t_rows, t_cols);
        let mut rr: usize = 0;
        while rr < t_rows
            invariant
                rr <= t_rows,
                self.wf(),
                other.wf(),
                mat_entries_wf(self@),
                mat_entries_wf(other@),
                t_rows == self.spec_rows() * other.spec_rows(),
                t_cols == self.spec_cols() * other.spec_cols(),
                result.wf(),
                result.spec_rows() == t_rows,
                result.spec_cols() == t_cols,
                forall|p: int, q: int|
                    0 <= p < rr && 0 <= q < t_cols ==> result@[p][q] == self@[p
                        / other.spec_rows() as int][q / other.spec_cols() as int].spec_mul(
                        other@[p % other.spec_rows() as int][q % other.spec_cols() as int],
                    ),
            decreases t_rows - rr,
        {
            let mut cc: usize = 0;
            while cc < t_cols
                invariant
                    rr < t_rows,
                    cc <= t_cols,
                    self.wf(),
                    other.wf(),
                    mat_entries_wf(self@),
                    mat_entries_wf(other@),
                    t_rows == self.spec_rows() * other.spec_rows(),
                    t_cols == self.spec_cols() * other.spec_cols(),
                    result.wf(),
                    result.spec_rows() == t_rows,
                    result.spec_cols() == t_cols,
                    forall|p: int, q: int|
                        0 <= p < rr && 0 <= q < t_cols ==> result@[p][q] == self@[p
                            / other.spec_rows() as int][q / other.spec_cols() as int].spec_mul(
                            other@[p % other.spec_rows() as int][q % other.spec_cols() as int],
                        ),
                    forall|q: int|
                        0 <= q < cc ==> result@[rr as int][q] == self@[rr as int
                            / other.spec_rows() as int][q / other.spec_cols() as int].spec_mul(
                            other@[rr as int % other.spec_rows() as int][q
                                % other.spec_cols() as int],
                        ),
                decreases t_cols - cc,
            {
                proof {
                    assert(other.spec_rows() > 0) by (nonlinear_arith)
                        requires
                            rr < self.spec_rows() * other.spec_rows(),
                    ;
                    assert(other.spec_cols() > 0) by (nonlinear_arith)
                        requires
                            cc < self.spec_cols() * other.spec_cols(),
                    ;
                    lemma_div_below(rr as int, other.spec_rows() as int, self.spec_rows() as int);
                    lemma_div_below(cc as int, other.spec_cols() as int, self.spec_cols() as int);
                }
                let v = self.at(rr / other.rows, cc / other.cols);
                let w = other.at(rr % other.rows, cc % other.cols);
                proof {
                    T::law_wf_mul(
                        self@[rr as int / other.spec_rows() as int][cc as int
                            / other.spec_cols() as int],
                        other@[rr as int % other.spec_rows() as int][cc as int
                            % other.spec_cols() as int],
                    );
                }
                result.put(rr, cc, v.mul(w));
                cc = cc + 1;
            }
            rr = rr + 1;
        }
        proof {
            assert(result@ =~~= spec_tensor(self@, other@, self.spec_cols(), other.spec_cols()));
            assert forall|i: int, j: int, k: int, l: int|
                0 <= i < self.spec_rows() && 0 <= j < self.spec_cols() && 0 <= k
                    < other.spec_rows() && 0 <= l < other.spec_cols() implies result@[i
                    * other.spec_rows() + k][j * other.spec_cols() + l] == self@[i][j].spec_mul(
                    other@[k][l],
                ) by {
                let o_r = other.spec_rows() as int;
                let o_c = other.spec_cols() as int;
                lemma_rm_index(i, k, self.spec_rows() as int, o_r);
                lemma_rm_index(j, l, self.spec_cols() as int, o_c);
                vstd::arithmetic::div_mod::lemma_fundamental_div_mod_converse(
                    i * o_r + k,
                    o_r,
                    i,
                    k,
                );
                vstd::arithmetic::div_mod::lemma_fundamental_div_mod_converse(
                    j * o_c + l,
                    o_c,
                    j,
                    l,
                );
            }
        }
        result
    }

    /// The `size` by `size` matrix with the multiplicative identity on
    /// the diagonal and the additive identity elsewhere.
    pub fn identity(size: usize) -> (r: Matrix<T>)
        requires
            size * size <= usize::MAX,
        ensures
            r.wf(),
            r.spec_rows() == size,
            r.spec_cols() == size,
            r@ == spec_identity::<T>(size as nat),
    {
        let mut result = Matrix::new_with_default_elems(size, size);
        let mut i: usize = 0;
        proof {
            T::law_wf_one();
        }
        while i < size
            invariant
                i <= size,
                T::spec_one().wf(),
                result.wf(),
                result.spec_rows() == size,
                result.spec_cols() == size,
                forall|p: int| 0 <= p < i ==> result@[p][p] == T::spec_one(),
                forall|p: int, q: int|
                    0 <= p < size && 0 <= q < size && p != q ==> result@[p][q] == T::spec_zero(),
                forall|p: int| i <= p < size ==> result@[p][p] == T::spec_zero(),
            decreases size - i,
        {
            result.put(i, i, T::one());
            i = i + 1;
        }
        proof {
            assert(result@ =~~= spec_identity::<T>(size as nat));
        }
        result
    }

    /// Copies every entry of `matrix` into `self`, the top-left entry
    /// landing at `row`, `col`; `matrix` must fit within `self`'s extent.
    /// Entries outside the written window keep their values.
    pub fn embed(&mut self, matrix: &Matrix<T>, row: usize, col: usize)
        requires
            old(self).wf(),
            matrix.wf(),
            row + matrix.spec_rows() <= old(self).spec_rows(),
            col + matrix.spec_cols() <= old(self).spec_cols(),
        ensures
            final(self).wf(),
            final(self).spec_rows() == old(self).spec_rows(),
            final(self).spec_cols() == old(self).spec_cols(),
            forall|di: int, dj: int|
                0 <= di < matrix.spec_rows() && 0 <= dj < matrix.spec_cols() ==> final(self)@[row
                    + di][col + dj] == matrix@[di][dj],
            forall|p: int, q: int|
                0 <= p < old(self).spec_rows() && 0 <= q < old(self).spec_cols() && !(row <= p
                    < row + matrix.spec_rows() && col <= q < col + matrix.spec_cols())
                    ==> final(self)@[p][q] == old(self)@[p][q],
    {
        proof {
            matrix.lemma_wf_entries();
        }
        let mut di: usize = 0;
        while di < matrix.rows
            invariant
                di <= matrix.spec_rows(),
                matrix.wf(),
                mat_entries_wf(matrix@),
                self.wf(),
                self.spec_rows() == old(self).spec_rows(),
                self.spec_cols() == old(self).spec_cols(),
                row + matrix.spec_rows() <= self.spec_rows(),
                col + matrix.spec_cols() <= self.spec_cols(),
                forall|p: int, q: int|
                    0 <= p < di && 0 <= q < matrix.spec_cols() ==> self@[row + p][col + q]
                        == matrix@[p][q],
                forall|p: int, q: int|
                    0 <= p < self.spec_rows() && 0 <= q < self.spec_cols() && !(row <= p < row + di
                        && col <= q < col + matrix.spec_cols()) ==> self@[p][q] == old(self)@[p][q],
            decreases matrix.spec_rows() - di,
        {
            let mut dj: usize = 0;
            while dj < matrix.cols
                invariant
                    di < matrix.spec_rows(),
                    dj <= matrix.spec_cols(),
                    matrix.wf(),
                    mat_entries_wf(matrix@),
                    self.wf(),
                    self.spec_rows() == old(self).spec_rows(),
                    self.spec_cols() == old(self).spec_cols(),
                    row + matrix.spec_rows() <= self.spec_rows(),
                    col + matrix.spec_cols() <= self.spec_cols(),
                    forall|p: int, q: int|
                        0 <= p < di && 0 <= q < matrix.spec_cols() ==> self@[row + p][col + q]
                            == matrix@[p][q],
                    forall|q: int|
                        0 <= q < dj ==> self@[row + di][col + q] == matrix@[di as int][q],
                    forall|p: int, q: int|
                        0 <= p < self.spec_rows() && 0 <= q < self.spec_cols() && !(row <= p < row
                            + di && col <= q < col + matrix.spec_cols()) && !(p == row + di && col
                            <= q < col + dj) ==> self@[p][q] == old(self)@[p][q],
                decreases matrix.spec_cols() - dj,
            {
                let v = matrix.at(di, dj);
                self.put(row + di, col + dj, v);
                dj = dj + 1;
            }
            di = di + 1;
        }
    }

    /// The number of rows.
    pub fn rows(&self) -> (r: usize)
        ensures
            r == self.spec_rows(),
    {
        self.rows
    }

    /// The number of columns.
    pub fn cols(&self) -> (r: usize)
        ensures
            r == self.spec_cols(),
    {
        self.cols
    }
}

/// A row sequence with `rows` rows of `cols` entries each.
pub open spec fn mat_shape<T>(m: Seq<Seq<T>>, rows: nat, cols: nat) -> bool {
    m.len() == rows && forall|i: int| 0 <= i < m.len() ==> (#[trigger] m[i]).len() == cols
}

/// The length-`n` vector with a one at position `i` and zeroes elsewhere.
pub open spec fn unit_vec<T: Scalar>(n: nat, i: int) -> Seq<T> {
    Seq::new(
        n,
        |k: int|
            if k == i {
                T::spec_one()
            } else {
                T::spec_zero()
            },
    )
}

/// The inner product of the all-zeroes vector with anything well-formed
/// is zero.
proof fn lemma_dot_zero_left<T: Scalar>(c: Seq<T>)
    requires
        forall|k: int| 0 <= k < c.len() ==> (#[trigger] c[k]).wf(),
    ensures
        dot_entry(unit_vec::<T>(c.len(), -1), c) == T::spec_zero(),
    decreases c.len(),
{
    let e = unit_vec::<T>(c.len(), -1);
    if c.len() == 0 {
    } else {
        assert(e.drop_last() =~= unit_vec::<T>((c.len() - 1) as nat, -1));
        lemma_dot_zero_left(c.drop_last());
        T::law_wf_zero();
        T::law_mul_comm(T::spec_zero(), c.last());
        T::law_mul_zero(c.last());
        T::law_add_zero(T::spec_zero());
    }
}

/// The inner product of anything well-formed with the all-zeroes vector
/// is zero.
proof fn lemma_dot_zero_right<T: Scalar>(a: Seq<T>)
    requires
        forall|k: int| 0 <= k < a.len() ==> (#[trigger] a[k]).wf(),
    ensures
        dot_entry(a, unit_vec::<T>(a.len(), -1)) == T::spec_zero(),
    decreases a.len(),
{
    let e = unit_vec::<T>(a.len(), -1);
    if a.len() == 0 {
    } else {
        assert(e.drop_last() =~= unit_vec::<T>((a.len() - 1) as nat, -1));
        lemma_dot_zero_right(a.drop_last());
        T::law_wf_zero();
        T::law_mul_zero(a.last());
        T::law_add_zero(T::spec_zero());
    }
}

/// The inner product with a unit vector on the left picks one entry.
proof fn lemma_dot_unit_left<T: Scalar>(c: Seq<T>, i: int)
    requires
        0 <= i < c.len(),
        forall|k: int| 0 <= k < c.len() ==> (#[trigger] c[k]).wf(),
    ensures
        dot_entry(unit_vec::<T>(c.len(), i), c) == c[i],
    decreases c.len(),
{
    let n = c.len() as int;
    let e = unit_vec::<T>(c.len(), i);
    T::law_wf_zero();
    T::law_wf_one();
    if i == n - 1 {
        assert(e.drop_last() =~= unit_vec::<T>((c.len() - 1) as nat, -1));
        lemma_dot_zero_left(c.drop_last());
        T::law_mul_comm(T::spec_one(), c[i]);
        T::law_mul_one(c[i]);
        T::law_add_comm(T::spec_zero(), c[i]);
        T::law_add_zero(c[i]);
    } else {
        assert(e.drop_last() =~= unit_vec::<T>((c.len() - 1) as nat, i));
        lemma_dot_unit_left(c.drop_last(), i);
        T::law_mul_comm(T::spec_zero(), c.last());
        T::law_mul_zero(c.last());
        T::law_add_zero(c[i]);
    }
}

/// The inner product with a unit vector on the right picks one entry.
proof fn lemma_dot_unit_right<T: Scalar>(a: Seq<T>, j: int)
    requires
        0 <= j < a.len(),
        forall|k: int| 0 <= k < a.len() ==> (#[trigger] a[k]).wf(),
    ensures
        dot_entry(a, unit_vec::<T>(a.len(), j)) == a[j],
    decreases a.len(),
{
    let n = a.len() as int;
    let e = unit_vec::<T>(a.len(), j);
    T::law_wf_zero();
    T::law_wf_one();
    if j == n - 1 {
        assert(e.drop_last() =~= unit_vec::<T>((a.len() - 1) as nat, -1));
        lemma_dot_zero_right(a.drop_last());
        T::law_mul_one(a[j]);
        T::law_add_comm(T::spec_zero(), a[j]);
        T::law_add_zero(a[j]);
    } else {
        assert(e.drop_last() =~= unit_vec::<T>((a.len() - 1) as nat, j));
        lemma_dot_unit_right(a.drop_last(), j);
        T::law_mul_zero(a.last());
        T::law_add_zero(a[j]);
    }
}

/// The sum of a sequence of scalars.
pub open spec fn seq_sum<T: Scalar>(s: Seq<T>) -> T
    decreases s.len(),
{
    if s.len() == 0 {
        T::spec_zero()
    } else {
        seq_sum(s.drop_last()).spec_add(s.last())
    }
}

/// The entrywise product of two equally long sequences.
pub open spec fn pointwise_mul<T: Scalar>(a: Seq<T>, b: Seq<T>) -> Seq<T> {
    Seq::new(a.len(), |k: int| a[k].spec_mul(b[k]))
}

/// All products of an entry of `x` with an entry of `y`, ordered with
/// `x`'s index more significant.
spec fn grid_mul<T: Scalar>(x: Seq<T>, y: Seq<T>) -> Seq<T> {
    Seq::new(
        x.len() * y.len(),
        |q: int| x[q / y.len() as int].spec_mul(y[q % y.len() as int]),
    )
}

/// A sum of well-formed scalars is well-formed.
proof fn lemma_seq_sum_wf<T: Scalar>(s: Seq<T>)
    requires
        forall|k: int| 0 <= k < s.len() ==> (#[trigger] s[k]).wf(),
    ensures
        seq_sum(s).wf(),
    decreases s.len(),
{
    T::law_wf_zero();
    if s.len() > 0 {
        lemma_seq_sum_wf(s.drop_last());
        T::law_wf_add(seq_sum(s.drop_last()), s.last());
    }
}

/// An inner product of well-formed sequences is well-formed.
proof fn lemma_dot_wf<T: Scalar>(a: Seq<T>, b: Seq<T>)
    requires
        a.len() <= b.len(),
        forall|k: int| 0 <= k < a.len() ==> (#[trigger] a[k]).wf(),
        forall|k: int| 0 <= k < b.len() ==> (#[trigger] b[k]).wf(),
    ensures
        dot_entry(a, b).wf(),
    decreases a.len(),
{
    T::law_wf_zero();
    if a.len() > 0 {
        lemma_dot_wf(a.drop_last(), b.drop_last());
        T::law_wf_mul(a.last(), b.last());
        T::law_wf_add(dot_entry(a.drop_last(), b.drop_last()), a.last().spec_mul(b.last()));
    }
}

/// Products of products can be regrouped pairwise:
/// `(a*b)*(c*d) == (a*c)*(b*d)`.
proof fn lemma_mul_exchange<T: Scalar>(a: T, b: T, c: T, d: T)
    requires
        a.wf(),
        b.wf(),
        c.wf(),
        d.wf(),
    ensures
        a.spec_mul(b).spec_mul(c.spec_mul(d)) == a.spec_mul(c).spec_mul(b.spec_mul(d)),
{
    T::law_wf_mul(c, d);
    T::law_wf_mul(b, c);
    T::law_wf_mul(c, b);
    T::law_wf_mul(b, d);
    // (ab)(cd) == a(b(cd))
    T::law_mul_assoc(a, b, c.spec_mul(d));
    // b(cd) == (bc)d == (cb)d == c(bd)
    T::law_mul_assoc(b, c, d);
    T::law_mul_comm(b, c);
    T::law_mul_assoc(c, b, d);
    // a(c(bd)) == (ac)(bd)
    T::law_mul_assoc(a, c, b.spec_mul(d));
}

/// Distributivity with the sum on the left: `(a+b)*c == a*c + b*c`.
proof fn lemma_distrib_right<T: Scalar>(a: T, b: T, c: T)
    requires
        a.wf(),
        b.wf(),
        c.wf(),
    ensures
        a.spec_add(b).spec_mul(c) == a.spec_mul(c).spec_add(b.spec_mul(c)),
{
    T::law_wf_add(a, b);
    T::law_mul_comm(a.spec_add(b), c);
    T::law_distrib(c, a, b);
    T::law_mul_comm(c, a);
    T::law_mul_comm(c, b);
}

/// A sum splits at any position.
proof fn lemma_seq_sum_split<T: Scalar>(s: Seq<T>, m: int)
    requires
        0 <= m <= s.len(),
        forall|k: int| 0 <= k < s.len() ==> (#[trigger] s[k]).wf(),
    ensures
        seq_sum(s) == seq_sum(s.subrange(0, m)).spec_add(seq_sum(s.subrange(m, s.len() as int))),
    decreases s.len(),
{
    let n = s.len() as int;
    if m == n {
        assert(s.subrange(0, m) =~= s);
        assert(s.subrange(m, n) =~= Seq::<T>::empty());
        lemma_seq_sum_wf(s);
        T::law_add_zero(seq_sum(s));
    } else {
        // s has at least one entry past m
        let s1 = s.drop_last();
        assert(s1.subrange(0, m) =~= s.subrange(0, m));
        lemma_seq_sum_split(s1, m);
        assert(s.subrange(m, n).drop_last() =~= s1.subrange(m, n - 1));
        assert(s.subrange(m, n).last() == s.last());
        lemma_seq_sum_wf(s.subrange(0, m));
        lemma_seq_sum_wf(s1.subrange(m, n - 1));
        T::law_add_assoc(seq_sum(s.subrange(0, m)), seq_sum(s1.subrange(m, n - 1)), s.last());
    }
}

/// A common left factor comes out of a sum.
proof fn lemma_scaled_sum<T: Scalar>(c: T, y: Seq<T>)
    requires
        c.wf(),
        forall|k: int| 0 <= k < y.len() ==> (#[trigger] y[k]).wf(),
    ensures
        seq_sum(Seq::new(y.len(), |v: int| c.spec_mul(y[v]))) == c.spec_mul(seq_sum(y)),
    decreases y.len(),
{
    let scaled = Seq::new(y.len(), |v: int| c.spec_mul(y[v]));
    if y.len() == 0 {
        T::law_mul_zero(c);
    } else {
        assert(scaled.drop_last() =~= Seq::new(
            (y.len() - 1) as nat,
            |v: int| c.spec_mul(y.drop_last()[v]),
        ));
        lemma_scaled_sum(c, y.drop_last());
        lemma_seq_sum_wf(y.drop_last());
        T::law_distrib(c, seq_sum(y.drop_last()), y.last());
    }
}

/// An inner product is the sum of the entrywise products.
proof fn lemma_dot_pointwise<T: Scalar>(a: Seq<T>, b: Seq<T>)
    requires
        a.len() == b.len(),
    ensures
        dot_entry(a, b) == seq_sum(pointwise_mul(a, b)),
    decreases a.len(),
{
    if a.len() > 0 {
        assert(pointwise_mul(a, b).drop_last() =~= pointwise_mul(a.drop_last(), b.drop_last()));
        lemma_dot_pointwise(a.drop_last(), b.drop_last());
    }
}

/// The sum over all pairwise products factorizes:
/// `sum(grid_mul(x, y)) == sum(x) * sum(y)`.
proof fn lemma_grid_sum<T: Scalar>(x: Seq<T>, y: Seq<T>)
    requires
        forall|k: int| 0 <= k < x.len() ==> (#[trigger] x[k]).wf(),
        forall|k: int| 0 <= k < y.len() ==> (#[trigger] y[k]).wf(),
        y.len() > 0,
    ensures
        seq_sum(grid_mul(x, y)) == seq_sum(x).spec_mul(seq_sum(y)),
    decreases x.len(),
{
    let s = y.len() as int;
    let g = grid_mul(x, y);
    lemma_seq_sum_wf(y);
    if x.len() == 0 {
        T::law_wf_zero();
        T::law_mul_comm(T::spec_zero(), seq_sum(y));
        T::law_mul_zero(seq_sum(y));
    } else {
        let p = x.len() as int;
        let prefix = g.subrange(0, (p - 1) * s);
        let block = g.subrange((p - 1) * s, p * s);
        assert(0 <= (p - 1) * s <= p * s == g.len()) by (nonlinear_arith)
            requires
                p >= 1,
                s > 0,
                g.len() == p * s,
        ;
        assert forall|k: int| 0 <= k < g.len() implies (#[trigger] g[k]).wf() by {
            lemma_div_below(k, s, p);
            T::law_wf_mul(x[k / s], y[k % s]);
        }
        lemma_seq_sum_split(g, (p - 1) * s);
        // the prefix is the grid of x without its last entry
        assert(prefix =~= grid_mul(x.drop_last(), y)) by {
            assert forall|q: int| 0 <= q < (p - 1) * s implies prefix[q] == grid_mul(
                x.drop_last(),
                y,
            )[q] by {
                lemma_div_below(q, s, p - 1);
            }
        }
        // the block is the last entry of x times each entry of y
        assert((p - 1) * s + s == p * s) by (nonlinear_arith);
        assert(block.len() == s);
        assert(block =~= Seq::new(s as nat, |v: int| x.last().spec_mul(y[v]))) by {
            assert forall|v: int| 0 <= v < s implies block[v] == x.last().spec_mul(y[v]) by {
                lemma_rm_index(p - 1, v, p, s);
                vstd::arithmetic::div_mod::lemma_fundamental_div_mod_converse(
                    (p - 1) * s + v,
                    s,
                    p - 1,
                    v,
                );
            }
        }
        lemma_grid_sum(x.drop_last(), y);
        lemma_scaled_sum(x.last(), y);
        lemma_seq_sum_wf(x.drop_last());
        lemma_distrib_right(seq_sum(x.drop_last()), x.last(), seq_sum(y));
    }
}

/// The mixed-product property of the Kronecker product:
/// `(A tensor B) * (C tensor D) == (A * C) tensor (B * D)` whenever the
/// inner dimensions agree (`A.cols == C.rows`, `B.cols == D.rows`).
pub proof fn lemma_tensor_mixed_product<T: Scalar>(
    a: Seq<Seq<T>>,
    b: Seq<Seq<T>>,
    c: Seq<Seq<T>>,
    d: Seq<Seq<T>>,
    a_cols: nat,
    b_cols: nat,
    c_cols: nat,
    d_cols: nat,
)
    requires
        mat_shape(a, a.len() as nat, a_cols),
        mat_shape(b, b.len() as nat, b_cols),
        mat_shape(c, c.len() as nat, c_cols),
        mat_shape(d, d.len() as nat, d_cols),
        mat_entries_wf(a),
        mat_entries_wf(b),
        mat_entries_wf(c),
        mat_entries_wf(d),
        c.len() == a_cols,
        d.len() == b_cols,
    ensures
        spec_dot(
            spec_tensor(a, b, a_cols, b_cols),
            spec_tensor(c, d, c_cols, d_cols),
            c_cols * d_cols,
        ) == spec_tensor(
            spec_dot(a, c, c_cols),
            spec_dot(b, d, d_cols),
            c_cols,
            d_cols,
        ),
{
    let ab = spec_tensor(a, b, a_cols, b_cols);
    let cd = spec_tensor(c, d, c_cols, d_cols);
    let lhs = spec_dot(ab, cd, c_cols * d_cols);
    let ac = spec_dot(a, c, c_cols);
    let bd = spec_dot(b, d, d_cols);
    let rhs = spec_tensor(ac, bd, c_cols, d_cols);
    assert(bd.len() == b.len());
    assert forall|r: int, cc: int|
        0 <= r < a.len() * b.len() && 0 <= cc < c_cols * d_cols implies lhs[r][cc]
        == rhs[r][cc] by {
        let s = b.len() as int;
        assert(s > 0) by (nonlinear_arith)
            requires
                0 <= r < a.len() * s,
        ;
        assert(d_cols > 0) by (nonlinear_arith)
            requires
                0 <= cc < c_cols * d_cols,
        ;
        lemma_div_below(r, s, a.len() as int);
        lemma_div_below(cc, d_cols as int, c_cols as int);
        let i = r / s;
        let k = r % s;
        let jj = cc / d_cols as int;
        let ll = cc % d_cols as int;
        let row_ab = ab[r];
        let col_cd = mat_column(cd, cc);
        assert(rhs[r][cc] == ac[i][jj].spec_mul(bd[k][ll]));
        assert(lhs[r][cc] == dot_entry(row_ab, col_cd));
        let x = pointwise_mul(a[i], mat_column(c, jj));
        let y = pointwise_mul(b[k], mat_column(d, ll));
        assert forall|u: int| 0 <= u < a_cols implies (#[trigger] x[u]).wf() by {
            T::law_wf_mul(a[i][u], c[u][jj]);
        }
        assert forall|v: int| 0 <= v < b_cols implies (#[trigger] y[v]).wf() by {
            T::law_wf_mul(b[k][v], d[v][ll]);
        }
        if a_cols == 0 || b_cols == 0 {
            // empty inner dimension: both sides are zero
            assert(row_ab.len() == 0) by (nonlinear_arith)
                requires
                    row_ab.len() == a_cols * b_cols,
                    a_cols == 0 || b_cols == 0,
            ;
            assert(dot_entry(row_ab, col_cd) == T::spec_zero());
            lemma_dot_wf(a[i], mat_column(c, jj));
            lemma_dot_wf(b[k], mat_column(d, ll));
            if b_cols == 0 {
                assert(bd[k][ll] == T::spec_zero());
                T::law_mul_zero(ac[i][jj]);
            } else {
                assert(ac[i][jj] == T::spec_zero());
                T::law_wf_zero();
                T::law_mul_comm(T::spec_zero(), bd[k][ll]);
                T::law_mul_zero(bd[k][ll]);
            }
        } else {
            // the entrywise products regroup into the grid of x and y
            assert(pointwise_mul(row_ab, col_cd) =~= grid_mul(x, y)) by {
                assert forall|q: int| 0 <= q < a_cols * b_cols implies pointwise_mul(
                    row_ab,
                    col_cd,
                )[q] == grid_mul(x, y)[q] by {
                    lemma_div_below(q, b_cols as int, a_cols as int);
                    let u = q / b_cols as int;
                    let v = q % b_cols as int;
                    assert(row_ab[q] == a[i][u].spec_mul(b[k][v]));
                    assert(col_cd[q] == c[u][jj].spec_mul(d[v][ll]));
                    lemma_mul_exchange(a[i][u], b[k][v], c[u][jj], d[v][ll]);
                }
            }
            lemma_dot_pointwise(row_ab, col_cd);
            lemma_grid_sum(x, y);
            lemma_dot_pointwise(a[i], mat_column(c, jj));
            lemma_dot_pointwise(b[k], mat_column(d, ll));
        }
    }
    assert(lhs =~~= rhs);
}

/// Multiplying by the identity on the left leaves a matrix unchanged:
/// `identity(n) * M == M` for any well-formed `M` with `n` rows.
pub proof fn lemma_identity_dot_left<T: Scalar>(m: Seq<Seq<T>>, cols: nat)
    requires
        mat_shape(m, m.len() as nat, cols),
        mat_entries_wf(m),
    ensures
        spec_dot(spec_identity::<T>(m.len() as nat), m, cols) == m,
{
    let n = m.len() as nat;
    let p = spec_dot(spec_identity::<T>(n), m, cols);
    assert forall|i: int, j: int| 0 <= i < m.len() && 0 <= j < cols implies p[i][j] == m[i][j] by {
        let c = mat_column(m, j);
        assert(spec_identity::<T>(n)[i] =~= unit_vec::<T>(n, i));
        assert(forall|k: int| 0 <= k < c.len() ==> (#[trigger] c[k]).wf());
        lemma_dot_unit_left(c, i);
    }
    assert(p =~~= m);
}

/// Multiplying by the identity on the right leaves a matrix unchanged:
/// `M * identity(n) == M` for any well-formed `M` with `n` columns.
pub proof fn lemma_identity_dot_right<T: Scalar>(m: Seq<Seq<T>>, cols: nat)
    requires
        mat_shape(m, m.len() as nat, cols),
        mat_entries_wf(m),
    ensures
        spec_dot(m, spec_identity::<T>(cols), cols) == m,
{
    let p = spec_dot(m, spec_identity::<T>(cols), cols);
    assert forall|i: int, j: int| 0 <= i < m.len() && 0 <= j < cols implies p[i][j] == m[i][j] by {
        assert(mat_column(spec_identity::<T>(cols), j) =~= unit_vec::<T>(cols, j));
        lemma_dot_unit_right(m[i], j);
    }
    assert(p =~~= m);
}

} // verus!
