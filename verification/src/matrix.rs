//! Dense matrices, and Gaussian elimination without pivoting.

use crate::float_traits::Scalar;
use crate::linear_system::LinearSystem;
use crate::vectors::copy_of;
use crate::vectors::filled;
use vstd::prelude::*;

verus! {

/// The direction in which the entries of a matrix are stored.
#[derive(Clone, Copy, Debug)]
pub enum MatrixMajor {
    Row,
    Column,
}

/// A dense matrix, stored as one array of lines of `major_dim` entries each.
#[derive(Debug)]
pub struct FullMatrix<T> {
    major: MatrixMajor,
    array: Vec<T>,
    major_dim: usize,
}

/// The position of the entry `major` of line `non_major` in an array of
/// lines of `dim` entries each.
pub open spec fn position(dim: nat, non_major: int, major: int) -> int {
    non_major * dim + major
}

/// In a square array of `n` lines, every entry of every line has a position
/// in the array, and entries of different lines have different positions.
pub proof fn lemma_position(n: nat, i: int, j: int)
    requires
        0 <= i < n,
        0 <= j < n,
    ensures
        0 <= position(n, i, j) < n * n,
        i * n <= position(n, i, j) < (i + 1) * n,
        forall|k: int| i < k ==> position(n, i, j) < #[trigger] (k * n),
        forall|k: int| k < i ==> #[trigger] (k * n) + n <= position(n, i, j),
{
    assert(i * n + n <= n * n) by (nonlinear_arith)
        requires
            0 <= i < n,
    ;
    assert((i + 1) * n == i * n + n) by (nonlinear_arith);
    assert forall|k: int| i < k implies position(n, i, j) < #[trigger] (k * n) by {
        assert(i * n + n <= k * n) by (nonlinear_arith)
            requires
                i < k,
                n >= 0,
        ;
    }
    assert forall|k: int| k < i implies #[trigger] (k * n) + n <= position(n, i, j) by {
        assert(k * n + n <= i * n) by (nonlinear_arith)
            requires
                k < i,
                n >= 0,
        ;
    }
}

impl<T> FullMatrix<T> {
    /// The array is not empty and holds whole lines.
    #[verifier::type_invariant]
    spec fn well_formed(self) -> bool {
        &&& self.major_dim > 0
        &&& self.array@.len() > 0
        &&& self.array@.len() % (self.major_dim as nat) == 0
    }

    /// The direction in which the entries are stored.
    pub closed spec fn spec_major(&self) -> MatrixMajor {
        self.major
    }

    /// The direction in which the entries are stored.
    #[verifier::when_used_as_spec(spec_major)]
    pub fn major(&self) -> (major: MatrixMajor)
        ensures
            major == self.major(),
    {
        self.major
    }

    /// The entries, line after line.
    pub closed spec fn entries(&self) -> Seq<T> {
        self.array@
    }

    /// The number of entries in a line.
    pub closed spec fn major_dim(&self) -> nat {
        self.major_dim as nat
    }

    /// The number of lines.
    pub open spec fn line_count(&self) -> nat {
        self.entries().len() / self.major_dim()
    }

    /// The number of rows.
    pub open spec fn spec_row_count(&self) -> nat {
        match self.major() {
            MatrixMajor::Row => self.line_count(),
            MatrixMajor::Column => self.major_dim(),
        }
    }

    /// The number of columns.
    pub open spec fn spec_column_count(&self) -> nat {
        match self.major() {
            MatrixMajor::Row => self.major_dim(),
            MatrixMajor::Column => self.line_count(),
        }
    }

    /// The matrix that stores `array` in lines of `major_dim` entries. The
    /// array is not empty and holds whole lines.
    pub fn new(major: MatrixMajor, major_dim: usize, array: Vec<T>) -> (m: Self)
        requires
            major_dim > 0,
            array@.len() > 0,
            array@.len() % (major_dim as nat) == 0,
        ensures
            m.major() == major,
            m.major_dim() == major_dim,
            m.entries() == array@,
    {
        Self { major, array, major_dim }
    }

    /// The number of lines and the number of entries in a line, which is
    /// not zero; together they account for every entry.
    fn dim(&self) -> (d: (usize, usize))
        ensures
            d.0 == self.line_count(),
            d.1 == self.major_dim(),
            d.0 > 0,
            d.1 > 0,
            d.0 * d.1 == self.entries().len(),
    {
        proof {
            use_type_invariant(self);
            let len = self.array@.len() as int;
            let dim = self.major_dim as int;
            vstd::arithmetic::div_mod::lemma_fundamental_div_mod(len, dim);
            assert(len == dim * (len / dim));
            assert(len / dim > 0) by (nonlinear_arith)
                requires
                    len == dim * (len / dim),
                    len > 0,
                    dim > 0,
            ;
            assert((len / dim) * dim == dim * (len / dim)) by (nonlinear_arith);
        }
        (self.array.len() / self.major_dim, self.major_dim)
    }

    /// The number of rows.
    pub fn row_count(&self) -> (n: usize)
        ensures
            n == self.spec_row_count(),
            n > 0,
    {
        let dim = self.dim();
        match self.major {
            MatrixMajor::Row => dim.0,
            MatrixMajor::Column => dim.1,
        }
    }

    /// The number of columns.
    pub fn column_count(&self) -> (n: usize)
        ensures
            n == self.spec_column_count(),
            n > 0,
    {
        let dim = self.dim();
        match self.major {
            MatrixMajor::Row => dim.1,
            MatrixMajor::Column => dim.0,
        }
    }

    /// Whether the matrix has as many rows as columns.
    pub fn is_square_matrix(&self) -> (square: bool)
        ensures
            square == (self.spec_row_count() == self.spec_column_count()),
            square ==> self.entries().len() == self.major_dim() * self.major_dim(),
    {
        let dim = self.dim();
        self.row_count() == self.column_count()
    }

    /// The entry `major` of line `non_major`, which lies in the array.
    pub fn get(&self, non_major: usize, major: usize) -> (val: T) where T: Copy
        requires
            position(self.major_dim(), non_major as int, major as int) < self.entries().len(),
        ensures
            val == self.entries()[position(self.major_dim(), non_major as int, major as int)],
    {
        proof {
            assert((non_major as int) * (self.major_dim as int) >= 0) by (nonlinear_arith);
            assert(self.array.len() == self.array@.len());
        }
        self.array[non_major * self.major_dim + major]
    }

    /// Replaces the entry `major` of line `non_major`, which lies in the
    /// array, by `val`.
    pub fn set(&mut self, non_major: usize, major: usize, val: T)
        requires
            position(old(self).major_dim(), non_major as int, major as int) < old(
                self,
            ).entries().len(),
        ensures
            final(self).major() == old(self).major(),
            final(self).major_dim() == old(self).major_dim(),
            final(self).entries() == old(self).entries().update(
                position(old(self).major_dim(), non_major as int, major as int),
                val,
            ),
    {
        proof {
            use_type_invariant(&*self);
            assert((non_major as int) * (self.major_dim as int) >= 0) by (nonlinear_arith);
            assert(self.array.len() == self.array@.len());
        }
        self.array[non_major * self.major_dim + major] = val;
    }
}

impl<T: Copy> Clone for FullMatrix<T> {
    /// A matrix with the same entries, stored in the same way.
    fn clone(&self) -> (m: Self)
        ensures
            m.major() == self.major(),
            m.major_dim() == self.major_dim(),
            m.entries() == self.entries(),
    {
        proof {
            use_type_invariant(self);
        }
        Self { major: self.major, array: copy_of(self.array.as_slice()), major_dim: self.major_dim }
    }
}

/// The sum of the first `upto` entries of line `line`, added one after the
/// other to zero.
pub open spec fn line_sum<T: Scalar>(entries: Seq<T>, dim: nat, line: int, upto: nat) -> T
    decreases upto,
{
    if upto == 0 {
        T::ZERO
    } else {
        line_sum(entries, dim, line, (upto - 1) as nat).add_spec(
            entries[position(dim, line, upto - 1)],
        )
    }
}

/// The scalar that counts `k`: zero with one added `k` times.
pub open spec fn count<T: Scalar>(k: nat) -> T
    decreases k,
{
    if k == 0 {
        T::ZERO
    } else {
        count::<T>((k - 1) as nat).add_spec(T::ONE)
    }
}

/// The entries of the Hilbert matrix of order `n`, row after row: the entry
/// of row `i` and column `j`, both counted from zero, is one over the scalar
/// that counts `i + j + 1`.
pub open spec fn hilbert_entries<T: Scalar>(n: nat) -> Seq<T> {
    Seq::new(n * n, |at: int| T::ONE.div_spec(count::<T>((at / n as int + at % n as int + 1) as nat)))
}

impl<T: Scalar> FullMatrix<T> {
    /// The Hilbert matrix of order `n`, stored by rows. The order is not
    /// zero, and its square is a length that a vector can have.
    pub fn hilbert(n: usize) -> (m: Self)
        requires
            0 < n,
            n * n <= usize::MAX,
        ensures
            m.major() is Row,
            m.major_dim() == n,
            m.entries() == hilbert_entries::<T>(n as nat),
    {
        let mut v: Vec<T> = Vec::new();
        let mut first = T::ZERO;
        let mut i: usize = 0;
        while i < n
            invariant
                i <= n,
                0 < n,
                n * n <= usize::MAX,
                first == count::<T>(i as nat),
                v@.len() == i * n,
                v@.len() <= n * n,
                forall|at: int|
                    0 <= at < v@.len() ==> #[trigger] v@[at] == hilbert_entries::<T>(n as nat)[at],
            decreases n - i,
        {
            let mut below = first;
            let mut j: usize = 0;
            while j < n
                invariant
                    i < n,
                    j <= n,
                    0 < n,
                    n * n <= usize::MAX,
                    below == count::<T>((i + j) as nat),
                    v@.len() == i * n + j,
                    v@.len() <= n * n,
                    forall|at: int|
                        0 <= at < v@.len() ==> #[trigger] v@[at] == hilbert_entries::<T>(
                            n as nat,
                        )[at],
                decreases n - j,
            {
                proof {
                    lemma_position(n as nat, i as int, j as int);
                    vstd::arithmetic::div_mod::lemma_fundamental_div_mod_converse(
                        i * n + j,
                        n as int,
                        i as int,
                        j as int,
                    );
                }
                below = below.add(T::ONE);
                v.push(T::ONE.div(below));
                j += 1;
                proof {
                    assert(i * n + n <= n * n) by (nonlinear_arith)
                        requires
                            i < n,
                    ;
                }
            }
            first = first.add(T::ONE);
            i += 1;
            proof {
                assert((i - 1) * n + n == i * n) by (nonlinear_arith);
                assert(i * n <= n * n) by (nonlinear_arith)
                    requires
                        i <= n,
                ;
            }
        }
        proof {
            assert(v@ =~= hilbert_entries::<T>(n as nat));
            assert(n * n > 0) by (nonlinear_arith)
                requires
                    n > 0,
            ;
            vstd::arithmetic::div_mod::lemma_mod_multiples_basic(n as int, n as int);
        }
        Self::new(MatrixMajor::Row, n, v)
    }

    /// The sum of the entries of each row of a matrix stored by rows, added
    /// one after the other to zero. `v` has one entry for each column, and
    /// none of them is read.
    pub fn mul_vec(&self, v: &[T]) -> (ret: Vec<T>)
        requires
            self.major() is Row,
            v@.len() == self.spec_column_count(),
        ensures
            ret@.len() == self.spec_row_count(),
            forall|i: int|
                0 <= i < ret@.len() ==> #[trigger] ret@[i] == line_sum(
                    self.entries(),
                    self.major_dim(),
                    i,
                    self.major_dim(),
                ),
    {
        let rows = self.row_count();
        let columns = self.column_count();
        let dim = self.dim();
        let mut ret: Vec<T> = Vec::new();
        let mut i: usize = 0;
        while i < rows
            invariant
                i <= rows,
                rows == self.line_count(),
                columns == self.major_dim(),
                rows * columns == self.entries().len(),
                ret@.len() == i,
                forall|r: int|
                    0 <= r < i ==> #[trigger] ret@[r] == line_sum(
                        self.entries(),
                        self.major_dim(),
                        r,
                        self.major_dim(),
                    ),
            decreases rows - i,
        {
            let mut xi = T::ZERO;
            let mut j: usize = 0;
            while j < columns
                invariant
                    i < rows,
                    j <= columns,
                    columns == self.major_dim(),
                    rows * columns == self.entries().len(),
                    xi == line_sum(self.entries(), self.major_dim(), i as int, j as nat),
                decreases columns - j,
            {
                proof {
                    assert(i * columns + j < rows * columns) by (nonlinear_arith)
                        requires
                            i < rows,
                            j < columns,
                    ;
                }
                xi = xi.add(self.get(i, j));
                j += 1;
            }
            ret.push(xi);
            i += 1;
        }
        ret
    }

    /// Solves the system with this matrix, square and stored by rows, and
    /// the right-hand sides `b` by Gaussian elimination without pivoting.
    pub fn gaussian_elimination(&self, b: &[T]) -> (x: Vec<T>)
        requires
            self.major() is Row,
            self.spec_row_count() == self.spec_column_count(),
            b@.len() == self.spec_column_count(),
        ensures
            x@ == (LinearSystem { n: b@.len(), a: self.entries(), b: b@ }).solution(),
    {
        let square = self.is_square_matrix();
        let columns = self.column_count();
        let n = b.len();
        let ghost start = LinearSystem { n: n as nat, a: self.entries(), b: b@ };
        let mut b = copy_of(b);
        let mut a = self.clone();

        let mut col: usize = 0;
        while col < n
            invariant
                col <= n,
                n == start.n,
                start.well_sized(),
                a.major_dim() == n,
                (LinearSystem { n: n as nat, a: a.entries(), b: b@ }) == start.eliminate(
                    col as int,
                ),
            decreases n - col,
        {
            let ghost cleared = start.eliminate(col as int);
            proof {
                start.lemma_sizes(col as int);
                lemma_position(n as nat, col as int, col as int);
            }
            let p = a.get(col, col);
            let mut row: usize = col + 1;
            while row < n
                invariant
                    col < row <= n,
                    n == cleared.n,
                    cleared.well_sized(),
                    a.major_dim() == n,
                    p == cleared.at(col as int, col as int),
                    (LinearSystem { n: n as nat, a: a.entries(), b: b@ }) == cleared.reduce_rows(
                        col as int,
                        row as int,
                    ),
                decreases n - row,
            {
                let ghost before = cleared.reduce_rows(col as int, row as int);
                proof {
                    cleared.lemma_rows_sizes(col as int, row as int);
                    cleared.lemma_rows_keep_pivot(col as int, row as int, col as int, col as int);
                    lemma_position(n as nat, row as int, col as int);
                    lemma_position(n as nat, col as int, col as int);
                }
                let e = a.get(row, col).neg().div(p);
                a.set(row, col, T::ZERO);
                proof {
                    assert(a.entries() =~= before.reduced_coefficients(
                        col as int,
                        row as int,
                        col as int + 1,
                    ));
                }
                let mut k: usize = col + 1;
                while k < n
                    invariant
                        col < k <= n,
                        col < row < n,
                        n == before.n,
                        before.well_sized(),
                        a.major_dim() == n,
                        e == before.factor(col as int, row as int),
                        a.entries() == before.reduced_coefficients(
                            col as int,
                            row as int,
                            k as int,
                        ),
                    decreases n - k,
                {
                    proof {
                        lemma_position(n as nat, row as int, k as int);
                        lemma_position(n as nat, col as int, k as int);
                    }
                    let old = a.get(row, k);
                    let sub = a.get(col, k);
                    a.set(row, k, old.add(e.mul(sub)));
                    proof {
                        assert(a.entries() =~= before.reduced_coefficients(
                            col as int,
                            row as int,
                            k as int + 1,
                        ));
                    }
                    k += 1;
                }
                let b_row = b[row].add(e.mul(b[col]));
                b.set(row, b_row);
                row += 1;
            }
            col += 1;
        }

        let ghost reduced = start.eliminate(n as int);
        proof {
            start.lemma_sizes(n as int);
        }
        let mut x = filled(n, T::ZERO);
        let mut i: usize = n;
        while i > 0
            invariant
                i <= n,
                n == reduced.n,
                reduced.well_sized(),
                a.major_dim() == n,
                (LinearSystem { n: n as nat, a: a.entries(), b: b@ }) == reduced,
                x@ == reduced.substitute_from(i as int),
                x@.len() == n,
            decreases i,
        {
            i -= 1;
            let ghost known = x@;
            let mut xi = b[i];
            let mut j: usize = n;
            while j > i + 1
                invariant
                    i < j <= n,
                    n == reduced.n,
                    reduced.well_sized(),
                    a.major_dim() == n,
                    (LinearSystem { n: n as nat, a: a.entries(), b: b@ }) == reduced,
                    x@ == known,
                    x@.len() == n,
                    xi == reduced.back_sum(known, i as int, j as int),
                decreases j,
            {
                j -= 1;
                proof {
                    lemma_position(n as nat, i as int, j as int);
                }
                xi = xi.sub(a.get(i, j).mul(x[j]));
            }
            proof {
                lemma_position(n as nat, i as int, i as int);
            }
            x.set(i, xi.div(a.get(i, i)));
        }
        x
    }
}

} // verus!
