//! Systems of linear equations: what elimination without pivoting and back
//! substitution make of them, and that the unknowns they give solve the
//! system where the arithmetic is exact and no pivot is zero.

use crate::exact::exact_arithmetic;
use crate::float_traits::Scalar;
use crate::matrix::lemma_position;
use crate::matrix::position;
use vstd::prelude::*;

verus! {

/// A system of `n` linear equations in `n` unknowns: the coefficients row
/// after row, and the right-hand sides.
pub struct LinearSystem<T> {
    pub n: nat,
    pub a: Seq<T>,
    pub b: Seq<T>,
}

impl<T: Scalar> LinearSystem<T> {
    /// Whether there are `n` rows of `n` coefficients and `n` right-hand
    /// sides.
    pub open spec fn well_sized(self) -> bool {
        self.a.len() == self.n * self.n && self.b.len() == self.n
    }

    /// The coefficient of unknown `j` in equation `i`.
    pub open spec fn at(self, i: int, j: int) -> T {
        self.a[position(self.n, i, j)]
    }

    /// The multiple of equation `col` that, added to equation `row`, clears
    /// the coefficient of unknown `col` there.
    pub open spec fn factor(self, col: int, row: int) -> T {
        self.at(row, col).neg_spec().div_spec(self.at(col, col))
    }

    /// The coefficients after the multiple of equation `col` that clears
    /// unknown `col` is added to equation `row` in the unknowns below
    /// `upto`: the coefficient of unknown `col` is set to zero, those of the
    /// unknowns between `col` and `upto` get the multiple added, and all
    /// others stay.
    pub open spec fn reduced_coefficients(self, col: int, row: int, upto: int) -> Seq<T> {
        let e = self.factor(col, row);
        Seq::new(
            self.a.len(),
            |at: int|
                {
                    let k = at - row * self.n;
                    if k == col {
                        T::ZERO
                    } else if col < k < upto {
                        self.a[at].add_spec(e.mul_spec(self.a[position(self.n, col, k)]))
                    } else {
                        self.a[at]
                    }
                },
        )
    }

    /// The system after the multiple of equation `col` that clears unknown
    /// `col` is added to equation `row`.
    pub open spec fn reduce_row(self, col: int, row: int) -> Self {
        LinearSystem {
            n: self.n,
            a: self.reduced_coefficients(col, row, self.n as int),
            b: self.b.update(
                row,
                self.b[row].add_spec(self.factor(col, row).mul_spec(self.b[col])),
            ),
        }
    }

    /// The system after unknown `col` is cleared from the equations after
    /// `col` and before `upto`.
    pub open spec fn reduce_rows(self, col: int, upto: int) -> Self
        decreases upto - col,
    {
        if upto <= col + 1 {
            self
        } else {
            self.reduce_rows(col, upto - 1).reduce_row(col, upto - 1)
        }
    }

    /// The system after each unknown before `upto` is cleared from the
    /// equations after its own.
    pub open spec fn eliminate(self, upto: int) -> Self
        decreases upto,
    {
        if upto <= 0 {
            self
        } else {
            self.eliminate(upto - 1).reduce_rows(upto - 1, self.n as int)
        }
    }

    /// The right-hand side of equation `i` less the terms of the unknowns
    /// from `from` on, taken at `x` and subtracted last unknown first.
    pub open spec fn back_sum(self, x: Seq<T>, i: int, from: int) -> T
        decreases self.n - from,
    {
        if from >= self.n {
            self.b[i]
        } else {
            self.back_sum(x, i, from + 1).sub_spec(self.at(i, from).mul_spec(x[from]))
        }
    }

    /// The unknowns from `from` on as back substitution gives them, last
    /// first, and zero for the others.
    pub open spec fn substitute_from(self, from: int) -> Seq<T>
        decreases self.n - from,
    {
        if from >= self.n {
            Seq::new(self.n, |i: int| T::ZERO)
        } else {
            let x = self.substitute_from(from + 1);
            x.update(from, self.back_sum(x, from, from + 1).div_spec(self.at(from, from)))
        }
    }

    /// What Gaussian elimination without pivoting gives for the unknowns:
    /// elimination in every column, then back substitution.
    pub open spec fn solution(self) -> Seq<T> {
        self.eliminate(self.n as int).substitute_from(0)
    }

    /// Elimination keeps the size of the system.
    pub proof fn lemma_sizes(self, upto: int)
        requires
            self.well_sized(),
            upto <= self.n,
        ensures
            self.eliminate(upto).well_sized(),
            self.eliminate(upto).n == self.n,
        decreases upto,
    {
        if upto > 0 {
            self.lemma_sizes(upto - 1);
            self.eliminate(upto - 1).lemma_rows_sizes(upto - 1, self.n as int);
        }
    }

    /// Clearing an unknown keeps the size of the system.
    pub proof fn lemma_rows_sizes(self, col: int, upto: int)
        requires
            self.well_sized(),
            0 <= col,
            upto <= self.n,
        ensures
            self.reduce_rows(col, upto).well_sized(),
            self.reduce_rows(col, upto).n == self.n,
        decreases upto - col,
    {
        if upto > col + 1 {
            self.lemma_rows_sizes(col, upto - 1);
        }
    }

    /// Clearing unknown `col` from the equations after `col` leaves
    /// equation `col` and those before it as they are.
    pub proof fn lemma_rows_keep_pivot(self, col: int, upto: int, i: int, j: int)
        requires
            self.well_sized(),
            0 <= col,
            upto <= self.n,
            0 <= i <= col,
            0 <= j < self.n,
        ensures
            self.reduce_rows(col, upto).at(i, j) == self.at(i, j),
            self.reduce_rows(col, upto).b[i] == self.b[i],
        decreases upto - col,
    {
        if upto > col + 1 {
            self.lemma_rows_keep_pivot(col, upto - 1, i, j);
            self.lemma_rows_sizes(col, upto - 1);
            lemma_position(self.n, i, j);
        }
    }
}

/// The scalars of `x` as real numbers.
pub open spec fn reals<T>(val: spec_fn(T) -> real, x: Seq<T>) -> Seq<real> {
    Seq::new(x.len(), |j: int| val(x[j]))
}

impl<T: Scalar> LinearSystem<T> {
    /// What adding the multiple of equation `col` to equation `row` does to
    /// each coefficient and each right-hand side.
    pub proof fn lemma_reduce_row_entries(self, col: int, row: int)
        requires
            self.well_sized(),
            0 <= col < row < self.n,
        ensures
            ({
                let next = self.reduce_row(col, row);
                let e = self.factor(col, row);
                &&& next.well_sized()
                &&& next.n == self.n
                &&& forall|i: int, j: int|
                    0 <= i < self.n && 0 <= j < self.n && i != row ==> #[trigger] next.at(i, j)
                        == self.at(i, j)
                &&& forall|j: int| 0 <= j < col ==> #[trigger] next.at(row, j) == self.at(row, j)
                &&& next.at(row, col) == T::ZERO
                &&& forall|j: int|
                    col < j < self.n ==> #[trigger] next.at(row, j) == self.at(row, j).add_spec(
                        e.mul_spec(self.at(col, j)),
                    )
                &&& forall|i: int| 0 <= i < self.n && i != row ==> #[trigger] next.b[i] == self.b[i]
                &&& next.b[row] == self.b[row].add_spec(e.mul_spec(self.b[col]))
            }),
    {
        let next = self.reduce_row(col, row);
        let n = self.n;
        assert forall|i: int, j: int| 0 <= i < n && 0 <= j < n && i != row implies #[trigger] next.at(
            i,
            j,
        ) == self.at(i, j) by {
            lemma_position(n, i, j);
            assert(i < row ==> position(n, i, j) < row * n);
            assert(row < i ==> row * n + n <= position(n, i, j));
        }
        assert forall|j: int| 0 <= j < n implies position(n, row, j) - row * n == j
            && 0 <= #[trigger] position(n, row, j) < n * n by {
            lemma_position(n, row, j);
        }
        assert forall|j: int| 0 <= j < col implies #[trigger] next.at(row, j) == self.at(row, j) by {
            assert(position(n, row, j) - row * n == j);
        }
        assert(position(n, row, col) - row * n == col);
        assert forall|j: int| col < j < n implies #[trigger] next.at(row, j) == self.at(
            row,
            j,
        ).add_spec(self.factor(col, row).mul_spec(self.at(col, j))) by {
            assert(position(n, row, j) - row * n == j);
        }
    }

    /// The part of the left-hand side of equation `i` at `x` that the
    /// unknowns before `upto` make up.
    pub open spec fn row_dot(self, val: spec_fn(T) -> real, x: Seq<real>, i: int, upto: int) -> real
        decreases upto,
    {
        if upto <= 0 {
            0real
        } else {
            self.row_dot(val, x, i, upto - 1) + val(self.at(i, upto - 1)) * x[upto - 1]
        }
    }

    /// Whether `x` solves the system: in every equation the left-hand side
    /// at `x` is the right-hand side.
    pub open spec fn solved_by(self, val: spec_fn(T) -> real, x: Seq<real>) -> bool {
        forall|i: int|
            0 <= i < self.n ==> #[trigger] self.row_dot(val, x, i, self.n as int) == val(self.b[i])
    }

    /// Whether the unknowns before `cols` are cleared from the equations
    /// after their own, and unknown `cols` from those before `rows`.
    pub open spec fn cleared(self, val: spec_fn(T) -> real, cols: int, rows: int) -> bool {
        forall|r: int, c: int|
            0 <= c < r < self.n && (c < cols || (c == cols && r < rows)) ==> val(
                #[trigger] self.at(r, c),
            ) == 0real
    }

    /// Two systems with the same coefficients before `upto` in equation `i`
    /// have the same part of the left-hand side there.
    pub proof fn lemma_row_dot_same(
        self,
        other: Self,
        val: spec_fn(T) -> real,
        x: Seq<real>,
        i: int,
        upto: int,
    )
        requires
            forall|j: int| 0 <= j < upto ==> #[trigger] other.at(i, j) == self.at(i, j),
        ensures
            other.row_dot(val, x, i, upto) == self.row_dot(val, x, i, upto),
        decreases upto,
    {
        if upto > 0 {
            self.lemma_row_dot_same(other, val, x, i, upto - 1);
            assert(other.at(i, upto - 1) == self.at(i, upto - 1));
        }
    }

    /// Where each coefficient of equation `row` of `other` is that of `self`
    /// plus `e` times that of equation `col`, so is the left-hand side.
    pub proof fn lemma_row_dot_combined(
        self,
        other: Self,
        val: spec_fn(T) -> real,
        x: Seq<real>,
        e: real,
        col: int,
        row: int,
        upto: int,
    )
        requires
            forall|j: int|
                0 <= j < upto ==> val(#[trigger] other.at(row, j)) == val(self.at(row, j)) + e
                    * val(self.at(col, j)),
        ensures
            other.row_dot(val, x, row, upto) == self.row_dot(val, x, row, upto) + e * self.row_dot(
                val,
                x,
                col,
                upto,
            ),
        decreases upto,
    {
        if upto > 0 {
            self.lemma_row_dot_combined(other, val, x, e, col, row, upto - 1);
            let u = val(self.at(row, upto - 1));
            let v = val(self.at(col, upto - 1));
            let w = x[upto - 1];
            let d = self.row_dot(val, x, col, upto - 1);
            assert(val(other.at(row, upto - 1)) == u + e * v);
            assert((u + e * v) * w == u * w + e * (v * w)) by (nonlinear_arith);
            assert(e * (d + v * w) == e * d + e * (v * w)) by (nonlinear_arith);
        } else {
            assert(e * 0real == 0real) by (nonlinear_arith);
        }
    }
}

impl<T: Scalar> LinearSystem<T> {
    /// Under exact arithmetic, with a pivot that is not zero, adding the
    /// multiple of equation `col` to equation `row` clears unknown `col`
    /// from that equation, leaves cleared what was, and gives a system all
    /// of whose solutions solve this one.
    pub proof fn lemma_reduce_row(self, val: spec_fn(T) -> real, x: Seq<real>, col: int, row: int)
        requires
            exact_arithmetic(val),
            self.well_sized(),
            0 <= col < row < self.n,
            self.cleared(val, col, row),
            val(self.at(col, col)) != 0real,
        ensures
            self.reduce_row(col, row).cleared(val, col, row + 1),
            self.reduce_row(col, row).solved_by(val, x) ==> self.solved_by(val, x),
    {
        let next = self.reduce_row(col, row);
        let n = self.n as int;
        let e = val(self.factor(col, row));
        let p = val(self.at(col, col));
        let a = val(self.at(row, col));
        self.lemma_reduce_row_entries(col, row);
        assert(e == (-a) / p);
        assert(e * p == -a) by (nonlinear_arith)
            requires
                p != 0real,
                e == (-a) / p,
        ;
        assert forall|r: int, c: int|
            0 <= c < r < next.n && (c < col || (c == col && r < row + 1)) implies val(
            #[trigger] next.at(r, c),
        ) == 0real by {
            if r != row {
                assert(next.at(r, c) == self.at(r, c));
                assert(val(self.at(r, c)) == 0real);
            } else if c < col {
                assert(next.at(row, c) == self.at(row, c));
                assert(val(self.at(row, c)) == 0real);
            }
        }
        assert forall|j: int| 0 <= j < n implies val(#[trigger] next.at(row, j)) == val(
            self.at(row, j),
        ) + e * val(self.at(col, j)) by {
            if j < col {
                assert(next.at(row, j) == self.at(row, j));
                assert(val(self.at(col, j)) == 0real);
                assert(e * 0real == 0real) by (nonlinear_arith);
            } else if j == col {
            } else {
                assert(next.at(row, j) == self.at(row, j).add_spec(
                    self.factor(col, row).mul_spec(self.at(col, j)),
                ));
            }
        }
        if next.solved_by(val, x) {
            assert forall|i: int| 0 <= i < self.n implies #[trigger] self.row_dot(val, x, i, n)
                == val(self.b[i]) by {
                assert(next.row_dot(val, x, i, n) == val(next.b[i]));
                if i != row {
                    self.lemma_row_dot_same(next, val, x, i, n);
                    assert(next.b[i] == self.b[i]);
                } else {
                    self.lemma_row_dot_combined(next, val, x, e, col, row, n);
                    self.lemma_row_dot_same(next, val, x, col, n);
                    assert(next.row_dot(val, x, col, n) == val(next.b[col]));
                    assert(next.b[col] == self.b[col]);
                }
            }
        }
    }

    /// Under exact arithmetic, with a pivot that is not zero, clearing
    /// unknown `col` from the equations after `col` and before `upto` leaves
    /// cleared what was, and gives a system all of whose solutions solve
    /// this one.
    pub proof fn lemma_reduce_rows(self, val: spec_fn(T) -> real, x: Seq<real>, col: int, upto: int)
        requires
            exact_arithmetic(val),
            self.well_sized(),
            0 <= col < upto <= self.n,
            self.cleared(val, col, 0),
            val(self.at(col, col)) != 0real,
        ensures
            self.reduce_rows(col, upto).cleared(val, col, upto),
            self.reduce_rows(col, upto).solved_by(val, x) ==> self.solved_by(val, x),
        decreases upto - col,
    {
        if upto > col + 1 {
            let before = self.reduce_rows(col, upto - 1);
            self.lemma_reduce_rows(val, x, col, upto - 1);
            self.lemma_rows_sizes(col, upto - 1);
            self.lemma_rows_keep_pivot(col, upto - 1, col, col);
            before.lemma_reduce_row(val, x, col, upto - 1);
        }
    }

    /// Whether no pivot of the first `upto` steps of elimination is zero.
    pub open spec fn pivots_nonzero(self, val: spec_fn(T) -> real, upto: int) -> bool {
        forall|col: int|
            0 <= col < upto ==> val((#[trigger] self.eliminate(col)).at(col, col)) != 0real
    }

    /// Under exact arithmetic, with pivots that are not zero, elimination in
    /// the first `upto` columns clears each of those unknowns from the
    /// equations after its own, and gives a system all of whose solutions
    /// solve this one.
    pub proof fn lemma_eliminate(self, val: spec_fn(T) -> real, x: Seq<real>, upto: int)
        requires
            exact_arithmetic(val),
            self.well_sized(),
            0 <= upto <= self.n,
            self.pivots_nonzero(val, upto),
        ensures
            self.eliminate(upto).cleared(val, upto, 0),
            self.eliminate(upto).solved_by(val, x) ==> self.solved_by(val, x),
        decreases upto,
    {
        if upto > 0 {
            let col = upto - 1;
            let before = self.eliminate(col);
            self.lemma_eliminate(val, x, col);
            self.lemma_sizes(col);
            assert(val(self.eliminate(col).at(col, col)) != 0real);
            before.lemma_reduce_rows(val, x, col, self.n as int);
            before.lemma_rows_sizes(col, self.n as int);
        }
    }
}

impl<T: Scalar> LinearSystem<T> {
    /// The part of the left-hand side of equation `i` at `x` that the
    /// unknowns from `from` on make up.
    pub open spec fn row_tail(self, val: spec_fn(T) -> real, x: Seq<real>, i: int, from: int) -> real
        decreases self.n - from,
    {
        if from >= self.n {
            0real
        } else {
            self.row_tail(val, x, i, from + 1) + val(self.at(i, from)) * x[from]
        }
    }

    /// The left-hand side of an equation is the part of the unknowns before
    /// `from` and the part of the others.
    pub proof fn lemma_row_split(self, val: spec_fn(T) -> real, x: Seq<real>, i: int, from: int)
        requires
            0 <= from <= self.n,
        ensures
            self.row_dot(val, x, i, self.n as int) == self.row_dot(val, x, i, from)
                + self.row_tail(val, x, i, from),
        decreases self.n - from,
    {
        if from < self.n {
            self.lemma_row_split(val, x, i, from + 1);
        }
    }

    /// The part of the unknowns from `from` on is the same at two vectors
    /// that agree from `from` on.
    pub proof fn lemma_row_tail_same(
        self,
        val: spec_fn(T) -> real,
        x: Seq<real>,
        y: Seq<real>,
        i: int,
        from: int,
    )
        requires
            0 <= from,
            forall|j: int| from <= j < self.n ==> x[j] == y[j],
        ensures
            self.row_tail(val, x, i, from) == self.row_tail(val, y, i, from),
        decreases self.n - from,
    {
        if from < self.n {
            self.lemma_row_tail_same(val, x, y, i, from + 1);
        }
    }

    /// Under exact arithmetic, in a system whose unknowns are cleared from
    /// the equations after their own, the unknowns before `upto`, which is
    /// at most `i`, make up nothing of the left-hand side of equation `i`.
    pub proof fn lemma_row_head_cleared(
        self,
        val: spec_fn(T) -> real,
        x: Seq<real>,
        i: int,
        upto: int,
    )
        requires
            self.cleared(val, self.n as int, 0),
            0 <= upto <= i < self.n,
        ensures
            self.row_dot(val, x, i, upto) == 0real,
        decreases upto,
    {
        if upto > 0 {
            self.lemma_row_head_cleared(val, x, i, upto - 1);
            assert(val(self.at(i, upto - 1)) == 0real);
            let w = x[upto - 1];
            assert(0real * w == 0real) by (nonlinear_arith);
        }
    }

    /// Under exact arithmetic, what back substitution subtracts from the
    /// right-hand side of equation `i` is the part of its left-hand side
    /// that the unknowns from `from` on make up.
    pub proof fn lemma_back_sum(self, val: spec_fn(T) -> real, x: Seq<T>, i: int, from: int)
        requires
            exact_arithmetic(val),
            0 <= from <= self.n,
            x.len() == self.n,
        ensures
            val(self.back_sum(x, i, from)) == val(self.b[i]) - self.row_tail(
                val,
                reals(val, x),
                i,
                from,
            ),
        decreases self.n - from,
    {
        if from < self.n {
            self.lemma_back_sum(val, x, i, from + 1);
        }
    }

    /// Back substitution gives one value for each unknown, and the value of
    /// an unknown stays once it is found.
    pub proof fn lemma_substitute_keeps(self, from: int, j: int)
        requires
            0 <= from <= self.n,
        ensures
            self.substitute_from(from).len() == self.n,
            from <= j < self.n ==> self.substitute_from(from)[j] == self.substitute_from(j)[j],
        decreases self.n - from,
    {
        if from < self.n {
            self.lemma_substitute_keeps(from + 1, j);
        }
    }

    /// Under exact arithmetic, in a system whose unknowns are cleared from
    /// the equations after their own, and whose diagonal holds no zero,
    /// back substitution solves the system.
    pub proof fn lemma_substitute_solves(self, val: spec_fn(T) -> real)
        requires
            exact_arithmetic(val),
            self.well_sized(),
            self.cleared(val, self.n as int, 0),
            forall|i: int| 0 <= i < self.n ==> val(#[trigger] self.at(i, i)) != 0real,
        ensures
            self.solved_by(val, reals(val, self.substitute_from(0))),
    {
        let n = self.n as int;
        let found = self.substitute_from(0);
        let x = reals(val, found);
        self.lemma_substitute_keeps(0, 0);
        assert forall|i: int| 0 <= i < self.n implies #[trigger] self.row_dot(val, x, i, n) == val(
            self.b[i],
        ) by {
            let known = self.substitute_from(i + 1);
            let y = reals(val, known);
            self.lemma_substitute_keeps(i + 1, i + 1);
            self.lemma_substitute_keeps(0, i);
            self.lemma_substitute_keeps(i, i);
            assert forall|j: int| i + 1 <= j < self.n implies x[j] == y[j] by {
                self.lemma_substitute_keeps(0, j);
                self.lemma_substitute_keeps(i + 1, j);
            }
            self.lemma_row_tail_same(val, x, y, i, i + 1);
            self.lemma_back_sum(val, known, i, i + 1);
            self.lemma_row_split(val, x, i, i);
            self.lemma_row_head_cleared(val, x, i, i);
            let d = val(self.at(i, i));
            let rest = self.row_tail(val, x, i, i + 1);
            let rhs = val(self.b[i]);
            assert(d != 0real);
            assert(found[i] == self.back_sum(known, i, i + 1).div_spec(self.at(i, i)));
            assert(x[i] == (rhs - rest) / d);
            let xi = x[i];
            assert(d * xi == rhs - rest) by (nonlinear_arith)
                requires
                    d != 0real,
                    xi == (rhs - rest) / d,
            ;
        }
    }

    /// Elimination in a later column leaves an equation as it is.
    pub proof fn lemma_eliminate_keeps_row(self, upto: int, i: int, j: int)
        requires
            self.well_sized(),
            0 <= i <= upto <= self.n,
            i < self.n,
            0 <= j < self.n,
        ensures
            self.eliminate(upto).at(i, j) == self.eliminate(i).at(i, j),
            self.eliminate(upto).b[i] == self.eliminate(i).b[i],
        decreases upto,
    {
        if upto > i {
            self.lemma_eliminate_keeps_row(upto - 1, i, j);
            self.lemma_sizes(upto - 1);
            self.eliminate(upto - 1).lemma_rows_keep_pivot(upto - 1, self.n as int, i, j);
        }
    }

    /// Under exact arithmetic, where no pivot is zero, the unknowns that
    /// Gaussian elimination without pivoting gives solve the system.
    pub proof fn lemma_solution_solves(self, val: spec_fn(T) -> real)
        requires
            exact_arithmetic(val),
            self.well_sized(),
            self.pivots_nonzero(val, self.n as int),
        ensures
            self.solved_by(val, reals(val, self.solution())),
    {
        let n = self.n as int;
        let reduced = self.eliminate(n);
        let x = reals(val, self.solution());
        self.lemma_eliminate(val, x, n);
        self.lemma_sizes(n);
        assert forall|i: int| 0 <= i < reduced.n implies val(#[trigger] reduced.at(i, i))
            != 0real by {
            self.lemma_eliminate_keeps_row(n, i, i);
            assert(val(self.eliminate(i).at(i, i)) != 0real);
        }
        reduced.lemma_substitute_solves(val);
    }
}

} // verus!
