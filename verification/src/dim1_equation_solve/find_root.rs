//! The root-finding problem, the conditions under which a solver stops, and
//! the record it returns.

use crate::dim1_func::Dim1Fn;
use crate::exact::exact_arithmetic;
use crate::float_traits::FloatConst;
use crate::float_traits::Scalar;
use std::ops::Range;
use vstd::prelude::*;

verus! {

/// A function together with the interval on which a root is sought.
#[derive(Clone, Debug)]
pub struct FindRootProblem<T, F> {
    func: F,
    lower: T,
    upper: T,
}

impl<T, F> FindRootProblem<T, F> {
    /// The function whose root is sought.
    pub closed spec fn function(&self) -> F {
        self.func
    }

    /// The lower end of the search interval.
    pub closed spec fn lower(&self) -> T {
        self.lower
    }

    /// The upper end of the search interval.
    pub closed spec fn upper(&self) -> T {
        self.upper
    }

    /// Binds `func` to `search_range` without looking at the residuals at
    /// the ends of the interval.
    pub fn new_unchecked(func: F, search_range: Range<T>) -> (p: Self)
        ensures
            p.function() == func,
            p.lower() == search_range.start,
            p.upper() == search_range.end,
    {
        Self { func, lower: search_range.start, upper: search_range.end }
    }
}

/// Whether the residuals of `func` at `lo` and `hi` have a product that is
/// not above zero, so that a continuous `func` has a root between them.
pub open spec fn brackets_root<T: Scalar, F: Dim1Fn<T>>(func: F, lo: T, hi: T) -> bool {
    func.eval_spec(lo).mul_spec(func.eval_spec(hi)).le_spec(T::ZERO)
}

/// Whether, under every reading under which the arithmetic is exact and
/// the lower end of the search interval is not above its upper end, `root`
/// lies in the interval.
pub open spec fn in_interval_where_exact<T: Scalar, F: Dim1Fn<T>>(
    problem: FindRootProblem<T, F>,
    root: T,
) -> bool {
    forall|val: spec_fn(T) -> real|
        #[trigger] exact_arithmetic(val) && val(problem.lower()) <= val(problem.upper()) ==> val(
            problem.lower(),
        ) <= val(root) <= val(problem.upper())
}

impl<T: Scalar, F: Dim1Fn<T>> FindRootProblem<T, F> {
    /// Whether the interval brackets a root of the function.
    pub open spec fn spec_is_valid(&self) -> bool {
        brackets_root(self.function(), self.lower(), self.upper())
    }

    /// Evaluates the function at both ends of the interval and tells whether
    /// the interval brackets a root.
    #[verifier::when_used_as_spec(spec_is_valid)]
    pub fn is_valid(&self) -> (valid: bool)
        ensures
            valid == self.is_valid(),
    {
        let f_a = self.func.eval(self.lower);
        let f_b = self.func.eval(self.upper);
        f_a.mul(f_b).le(T::ZERO)
    }

    /// Binds `func` to an interval that brackets one of its roots.
    pub fn new(func: F, search_range: Range<T>) -> (p: Self)
        requires
            brackets_root(func, search_range.start, search_range.end),
        ensures
            p.function() == func,
            p.lower() == search_range.start,
            p.upper() == search_range.end,
            p.is_valid(),
    {
        Self::new_unchecked(func, search_range)
    }

    /// Binds `func` to `search_range` where the interval brackets a root, and
    /// returns `None` where it does not.
    pub fn try_new(func: F, search_range: Range<T>) -> (made: Option<Self>)
        ensures
            made.is_some() == brackets_root(func, search_range.start, search_range.end),
            made matches Some(p) ==> p.function() == func && p.lower() == search_range.start
                && p.upper() == search_range.end && p.is_valid(),
    {
        let p = Self::new_unchecked(func, search_range);
        if p.is_valid() {
            Some(p)
        } else {
            None
        }
    }

    /// The search interval.
    pub fn search_range(&self) -> (range: Range<T>)
        ensures
            range.start == self.lower(),
            range.end == self.upper(),
    {
        Range { start: self.lower, end: self.upper }
    }

    /// Evaluates the function at `x`.
    pub fn func_eval(&self, x: T) -> (y: T)
        ensures
            y == self.function().eval_spec(x),
    {
        self.func.eval(x)
    }
}

/// The thresholds at which a solver stops.
///
/// A solver tests them in this order at each iteration: the iteration limit,
/// the tolerance on `x`, the tolerance on `y`.
#[derive(Clone, Copy, Debug)]
pub struct IterStopCondition<T> {
    x_tolorency: T,
    y_tolorency: T,
    iter_count_limit: Option<usize>,
}

impl<T: Copy> IterStopCondition<T> {
    /// The tolerance on the width of the bracket, relative to the estimate.
    pub closed spec fn spec_x_tolorency(&self) -> T {
        self.x_tolorency
    }

    /// The tolerance on the magnitude of the residual.
    pub closed spec fn spec_y_tolorency(&self) -> T {
        self.y_tolorency
    }

    /// The largest number of iterations, where one is set.
    pub closed spec fn spec_iter_count_limit(&self) -> Option<usize> {
        self.iter_count_limit
    }

    /// The tolerance on `x`.
    #[verifier::when_used_as_spec(spec_x_tolorency)]
    pub fn x_tolorency(&self) -> (tol: T)
        ensures
            tol == self.x_tolorency(),
    {
        self.x_tolorency
    }

    /// The tolerance on `y`.
    #[verifier::when_used_as_spec(spec_y_tolorency)]
    pub fn y_tolorency(&self) -> (tol: T)
        ensures
            tol == self.y_tolorency(),
    {
        self.y_tolorency
    }

    /// The iteration limit, where one is set.
    #[verifier::when_used_as_spec(spec_iter_count_limit)]
    pub fn iter_count_limit(&self) -> (limit: Option<usize>)
        ensures
            limit == self.iter_count_limit(),
    {
        self.iter_count_limit
    }

    /// The number of iterations at which a solver stops whatever the
    /// tolerances say: the limit where one is set, else the largest count
    /// that the machine can hold.
    pub open spec fn iteration_cap(&self) -> usize {
        match self.iter_count_limit() {
            Some(limit) => limit,
            None => usize::MAX,
        }
    }
}

impl<T: FloatConst + Copy> Default for IterStopCondition<T> {
    /// Both tolerances at the scalar type's epsilon, and no iteration limit.
    fn default() -> (cond: Self)
        ensures
            cond.x_tolorency() == T::EPSILON,
            cond.y_tolorency() == T::EPSILON,
            cond.iter_count_limit() == None::<usize>,
    {
        Self { x_tolorency: T::EPSILON, y_tolorency: T::EPSILON, iter_count_limit: None }
    }
}

impl<T: Scalar> IterStopCondition<T> {
    /// Both tolerances at the scalar type's epsilon, and no iteration limit.
    pub fn new() -> (cond: Self)
        ensures
            cond.x_tolorency() == T::EPSILON,
            cond.y_tolorency() == T::EPSILON,
            cond.iter_count_limit() == None::<usize>,
    {
        Self { x_tolorency: T::EPSILON, y_tolorency: T::EPSILON, iter_count_limit: None }
    }

    /// Replaces the tolerance on `x` by `x_tol`, which is not negative.
    pub fn with_x_tolorency(self, x_tol: T) -> (cond: Self)
        requires
            T::ZERO.le_spec(x_tol),
        ensures
            cond.x_tolorency() == x_tol,
            cond.y_tolorency() == self.y_tolorency(),
            cond.iter_count_limit() == self.iter_count_limit(),
    {
        Self { x_tolorency: x_tol, y_tolorency: self.y_tolorency, iter_count_limit: self.iter_count_limit }
    }

    /// Replaces the tolerance on `y` by `y_tol`, which is not negative.
    pub fn with_y_tolorency(self, y_tol: T) -> (cond: Self)
        requires
            T::ZERO.le_spec(y_tol),
        ensures
            cond.x_tolorency() == self.x_tolorency(),
            cond.y_tolorency() == y_tol,
            cond.iter_count_limit() == self.iter_count_limit(),
    {
        Self { x_tolorency: self.x_tolorency, y_tolorency: y_tol, iter_count_limit: self.iter_count_limit }
    }

    /// Sets the iteration limit to `limit`.
    pub fn with_iter_count_limit(self, limit: usize) -> (cond: Self)
        ensures
            cond.x_tolorency() == self.x_tolorency(),
            cond.y_tolorency() == self.y_tolorency(),
            cond.iter_count_limit() == Some(limit),
    {
        Self { x_tolorency: self.x_tolorency, y_tolorency: self.y_tolorency, iter_count_limit: Some(limit) }
    }
}

/// The criterion that ended a solve.
#[derive(Clone, Copy, Debug, PartialEq, Eq, Structural)]
pub enum StopReason {
    /// The bracket is as narrow as the tolerance on `x` asks.
    TolorencyX,
    /// The residual is as small as the tolerance on `y` asks.
    TolorencyY,
    /// The iteration limit is reached.
    IterCountLimit,
}

/// What a solver returns: the estimate of the root, the number of iterations
/// that it took, and the criterion that ended it.
#[derive(Clone, Copy, Debug)]
pub struct SolveResult<T> {
    root: T,
    iter_count: usize,
    stop_reason: StopReason,
}

impl<T: Copy> SolveResult<T> {
    /// The estimate of the root.
    pub closed spec fn spec_root(&self) -> T {
        self.root
    }

    /// The number of iterations completed.
    pub closed spec fn spec_iter_count(&self) -> usize {
        self.iter_count
    }

    /// The criterion that ended the solve.
    pub closed spec fn spec_stop_reason(&self) -> StopReason {
        self.stop_reason
    }

    /// Two results with the same root, iteration count and stop reason are
    /// the same result.
    pub proof fn lemma_same_fields(self, other: Self)
        requires
            self.root() == other.root(),
            self.iter_count() == other.iter_count(),
            self.stop_reason() == other.stop_reason(),
        ensures
            self == other,
    {
    }

    pub(crate) fn new(root: T, iter_count: usize, stop_reason: StopReason) -> (res: Self)
        ensures
            res.root() == root,
            res.iter_count() == iter_count,
            res.stop_reason() == stop_reason,
    {
        Self { root, iter_count, stop_reason }
    }

    /// The estimate of the root.
    #[verifier::when_used_as_spec(spec_root)]
    pub fn root(&self) -> (root: T)
        ensures
            root == self.root(),
    {
        self.root
    }

    /// The number of iterations completed.
    #[verifier::when_used_as_spec(spec_iter_count)]
    pub fn iter_count(&self) -> (count: usize)
        ensures
            count == self.iter_count(),
    {
        self.iter_count
    }

    /// The criterion that ended the solve.
    #[verifier::when_used_as_spec(spec_stop_reason)]
    pub fn stop_reason(&self) -> (reason: StopReason)
        ensures
            reason == self.stop_reason(),
    {
        self.stop_reason
    }
}

} // verus!
