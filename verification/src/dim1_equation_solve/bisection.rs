//! Bisection: halve the bracket until a stop condition holds.

use crate::dim1_equation_solve::find_root::FindRootProblem;
use crate::dim1_equation_solve::find_root::IterStopCondition;
use crate::dim1_equation_solve::find_root::SolveResult;
use crate::dim1_equation_solve::find_root::StopReason;
use crate::dim1_func::Dim1Fn;
use crate::dim1_equation_solve::find_root::brackets_root;
use crate::dim1_equation_solve::find_root::in_interval_where_exact;
use crate::exact::exact_arithmetic;
use crate::exact::larger;
use crate::exact::lemma_derived_operations;
use crate::exact::magnitude;
use crate::exact::pow2;
use crate::float_traits::Abs;
use crate::float_traits::MaxMin;
use crate::float_traits::Scalar;
use vstd::prelude::*;

verus! {

/// What bisection holds between two iterations: the bracket, and the point
/// evaluated last.
pub struct Bracket<T> {
    /// The lower end of the bracket.
    pub lo: T,
    /// The upper end of the bracket.
    pub hi: T,
    /// The midpoint that the latest iteration evaluated; before the first
    /// iteration, the lower end.
    pub last: T,
}

impl<T: Scalar> Bracket<T> {
    /// The midpoint of the bracket.
    pub open spec fn mid(self) -> T {
        crate::float_traits::midpoint_spec(self.lo, self.hi)
    }

    /// The width of the bracket.
    pub open spec fn width(self) -> T {
        self.hi.sub_spec(self.lo)
    }

    /// The half of the bracket that one iteration keeps: the lower half
    /// where the residuals at the lower end and at the midpoint have a
    /// product that is not above zero, else the upper half.
    pub open spec fn halve<F: Dim1Fn<T>>(self, func: F) -> Self {
        let c = self.mid();
        if func.eval_spec(self.lo).mul_spec(func.eval_spec(c)).le_spec(T::ZERO) {
            Bracket { lo: self.lo, hi: c, last: c }
        } else {
            Bracket { lo: c, hi: self.hi, last: c }
        }
    }

    /// Whether the bracket is as narrow as the tolerance `x_tol` asks: its
    /// width is at most twice the tolerance, scaled by the magnitude of the
    /// lower end where that is above one.
    pub open spec fn narrow_enough(self, x_tol: T) -> bool {
        self.width().le_spec(
            x_tol.mul_spec(crate::float_traits::two_spec::<T>()).mul_spec(
                crate::float_traits::max_spec(crate::float_traits::abs_spec(self.lo), T::ONE),
            ),
        )
    }

    /// Whether the residual at the midpoint is below the tolerance `y_tol`
    /// in magnitude.
    pub open spec fn residual_small<F: Dim1Fn<T>>(self, func: F, y_tol: T) -> bool {
        crate::float_traits::abs_spec(func.eval_spec(self.mid())).lt_spec(y_tol)
    }

    /// The estimate that a solve ending at this bracket returns: at the
    /// iteration limit the point evaluated last, else the midpoint.
    pub open spec fn estimate(self, reason: StopReason) -> T {
        match reason {
            StopReason::IterCountLimit => self.last,
            _ => self.mid(),
        }
    }
}

/// The bracket that bisection holds after `k` iterations, none of which
/// stopped.
pub open spec fn bracket_after<T: Scalar, F: Dim1Fn<T>>(
    problem: FindRootProblem<T, F>,
    k: nat,
) -> Bracket<T>
    decreases k,
{
    if k == 0 {
        Bracket { lo: problem.lower(), hi: problem.upper(), last: problem.lower() }
    } else {
        bracket_after(problem, (k - 1) as nat).halve(problem.function())
    }
}

/// The criterion, if any, that stops bisection at the start of iteration `k`.
/// The iteration limit is tested first, then the tolerance on `x`, then the
/// tolerance on `y`.
pub open spec fn stops_at<T: Scalar, F: Dim1Fn<T>>(
    problem: FindRootProblem<T, F>,
    stop_cond: IterStopCondition<T>,
    k: nat,
) -> Option<StopReason> {
    let bracket = bracket_after(problem, k);
    if k >= stop_cond.iteration_cap() {
        Some(StopReason::IterCountLimit)
    } else if bracket.narrow_enough(stop_cond.x_tolorency()) {
        Some(StopReason::TolorencyX)
    } else if bracket.residual_small(problem.function(), stop_cond.y_tolorency()) {
        Some(StopReason::TolorencyY)
    } else {
        None
    }
}

/// Whether `res` is what bisection returns: its iteration count is the first
/// iteration at which a criterion holds, its reason is that criterion, and
/// its root is the estimate taken from the bracket of that iteration.
pub open spec fn is_bisection_result<T: Scalar, F: Dim1Fn<T>>(
    problem: FindRootProblem<T, F>,
    stop_cond: IterStopCondition<T>,
    res: SolveResult<T>,
) -> bool {
    let n = res.iter_count() as nat;
    &&& forall|j: nat| j < n ==> (#[trigger] stops_at(problem, stop_cond, j)).is_none()
    &&& stops_at(problem, stop_cond, n) == Some(res.stop_reason())
    &&& res.root() == bracket_after(problem, n).estimate(res.stop_reason())
}

/// Finds a root of the problem's function in its interval by bisection.
///
/// Each iteration tests the iteration limit, then the width of the bracket
/// against the tolerance on `x`, then the residual at the midpoint against
/// the tolerance on `y`, and, where none stops it, keeps the half of the
/// bracket whose ends still bracket a root. Without an iteration limit the
/// solve ends at the latest when the count reaches `usize::MAX`.
pub fn bisection_solve<T, F>(
    problem: &FindRootProblem<T, F>,
    stop_cond: &IterStopCondition<T>,
) -> (res: SolveResult<T>) where T: Scalar + Abs + MaxMin, F: Dim1Fn<T>
    ensures
        is_bisection_result(*problem, *stop_cond, res),
        res.iter_count() <= stop_cond.iteration_cap(),
        res.stop_reason() == StopReason::IterCountLimit <==> res.iter_count()
            == stop_cond.iteration_cap(),
        res.stop_reason() == StopReason::TolorencyY ==> crate::float_traits::abs_spec(
            problem.function().eval_spec(res.root()),
        ).lt_spec(stop_cond.y_tolorency()),
        in_interval_where_exact(*problem, res.root()),
{
    let range = problem.search_range();
    let mut a = range.start;
    let mut b = range.end;
    let mut f_a = problem.func_eval(a);
    let mut root = a;
    let cap: usize = match stop_cond.iter_count_limit() {
        Some(limit) => limit,
        None => usize::MAX,
    };
    let mut iter_count: usize = 0;

    loop
        invariant
            cap == stop_cond.iteration_cap(),
            iter_count <= cap,
            bracket_after(*problem, iter_count as nat) == (Bracket { lo: a, hi: b, last: root }),
            f_a == problem.function().eval_spec(a),
            forall|j: nat|
                j < iter_count ==> (#[trigger] stops_at(*problem, *stop_cond, j)).is_none(),
        decreases cap - iter_count,
    {
        if iter_count >= cap {
            let res = SolveResult::new(root, iter_count, StopReason::IterCountLimit);
            proof {
                lemma_result_in_interval(*problem, *stop_cond, res);
            }
            return res;
        }
        let c = crate::float_traits::midpoint(a, b);

        let scale = a.abs().max(T::ONE);
        if b.sub(a).le(stop_cond.x_tolorency().mul(crate::float_traits::two::<T>()).mul(scale)) {
            let res = SolveResult::new(c, iter_count, StopReason::TolorencyX);
            proof {
                lemma_result_in_interval(*problem, *stop_cond, res);
            }
            return res;
        }
        let f_c = problem.func_eval(c);
        if f_c.abs().lt(stop_cond.y_tolorency()) {
            let res = SolveResult::new(c, iter_count, StopReason::TolorencyY);
            proof {
                lemma_result_in_interval(*problem, *stop_cond, res);
            }
            return res;
        }
        if f_a.mul(f_c).le(T::ZERO) {
            b = c;
        } else {
            a = c;
            f_a = f_c;
        }
        root = c;
        iter_count += 1;
    }
}

/// Bisection is a function of the problem and the stop condition: two
/// results of the same solve are the same result.
pub proof fn lemma_bisection_deterministic<T: Scalar, F: Dim1Fn<T>>(
    problem: FindRootProblem<T, F>,
    stop_cond: IterStopCondition<T>,
    first: SolveResult<T>,
    second: SolveResult<T>,
)
    requires
        is_bisection_result(problem, stop_cond, first),
        is_bisection_result(problem, stop_cond, second),
    ensures
        first == second,
{
    let m = first.iter_count() as nat;
    let n = second.iter_count() as nat;
    if m < n {
        assert(stops_at(problem, stop_cond, m).is_none());
    }
    if n < m {
        assert(stops_at(problem, stop_cond, n).is_none());
    }
    first.lemma_same_fields(second);
}

/// With an iteration limit that no tolerance forestalls, bisection stops at
/// the limit: where neither tolerance is met at any of the first `limit`
/// iterations, the result has the reason `IterCountLimit` and the count
/// `limit`.
pub proof fn lemma_bisection_runs_to_limit<T: Scalar, F: Dim1Fn<T>>(
    problem: FindRootProblem<T, F>,
    stop_cond: IterStopCondition<T>,
    res: SolveResult<T>,
    limit: usize,
)
    requires
        is_bisection_result(problem, stop_cond, res),
        stop_cond.iter_count_limit() == Some(limit),
        forall|j: nat|
            j < limit ==> !(#[trigger] bracket_after(problem, j)).narrow_enough(
                stop_cond.x_tolorency(),
            ) && !bracket_after(problem, j).residual_small(
                problem.function(),
                stop_cond.y_tolorency(),
            ),
    ensures
        res.stop_reason() == StopReason::IterCountLimit,
        res.iter_count() == limit,
{
    let n = res.iter_count() as nat;
    if n < limit {
        assert(!bracket_after(problem, n).narrow_enough(stop_cond.x_tolorency()));
    }
    if n > limit {
        assert(stops_at(problem, stop_cond, limit as nat).is_none());
    }
}

/// Under exact arithmetic, one iteration keeps the bracket inside the old
/// one, with the point evaluated last at one of its ends, and halves its
/// width.
pub proof fn lemma_halve<T: Scalar, F: Dim1Fn<T>>(
    val: spec_fn(T) -> real,
    func: F,
    bracket: Bracket<T>,
)
    requires
        exact_arithmetic(val),
    ensures
        val(bracket.halve(func).width()) == val(bracket.width()) / 2real,
        val(bracket.lo) <= val(bracket.hi) ==> {
            let next = bracket.halve(func);
            &&& val(bracket.lo) <= val(next.lo) <= val(next.hi) <= val(bracket.hi)
            &&& val(next.lo) <= val(next.last) <= val(next.hi)
        },
{
    lemma_derived_operations(val);
}

/// Under exact arithmetic, after `k` iterations that did not stop the
/// bracket has the width of the search interval divided by two to the power
/// `k`.
pub proof fn lemma_width_after<T: Scalar, F: Dim1Fn<T>>(
    val: spec_fn(T) -> real,
    problem: FindRootProblem<T, F>,
    k: nat,
)
    requires
        exact_arithmetic(val),
    ensures
        val(bracket_after(problem, k).width()) * pow2(k) == val(problem.upper()) - val(
            problem.lower(),
        ),
    decreases k,
{
    if k > 0 {
        lemma_width_after(val, problem, (k - 1) as nat);
        lemma_halve(val, problem.function(), bracket_after(problem, (k - 1) as nat));
        let before = val(bracket_after(problem, (k - 1) as nat).width());
        let scale = pow2((k - 1) as nat);
        assert((before / 2real) * (2real * scale) == before * scale) by (nonlinear_arith);
    }
}

/// Under exact arithmetic, on an interval whose lower end is not above its
/// upper end, every bracket lies inside the search interval, and so does the
/// point evaluated last.
pub proof fn lemma_bracket_inside<T: Scalar, F: Dim1Fn<T>>(
    val: spec_fn(T) -> real,
    problem: FindRootProblem<T, F>,
    k: nat,
)
    requires
        exact_arithmetic(val),
        val(problem.lower()) <= val(problem.upper()),
    ensures
        ({
            let bracket = bracket_after(problem, k);
            &&& val(problem.lower()) <= val(bracket.lo) <= val(bracket.hi) <= val(problem.upper())
            &&& val(bracket.lo) <= val(bracket.last) <= val(bracket.hi)
        }),
    decreases k,
{
    if k > 0 {
        lemma_bracket_inside(val, problem, (k - 1) as nat);
        lemma_halve(val, problem.function(), bracket_after(problem, (k - 1) as nat));
    }
}

/// Under exact arithmetic, on an interval whose lower end is not above its
/// upper end, the estimate that bisection returns lies in the interval.
pub proof fn lemma_bisection_root_in_interval<T: Scalar, F: Dim1Fn<T>>(
    val: spec_fn(T) -> real,
    problem: FindRootProblem<T, F>,
    stop_cond: IterStopCondition<T>,
    res: SolveResult<T>,
)
    requires
        exact_arithmetic(val),
        val(problem.lower()) <= val(problem.upper()),
        is_bisection_result(problem, stop_cond, res),
    ensures
        val(problem.lower()) <= val(res.root()) <= val(problem.upper()),
{
    lemma_derived_operations(val);
    lemma_bracket_inside(val, problem, res.iter_count() as nat);
}

/// The estimate that bisection returns lies in the search interval under
/// every reading under which the arithmetic is exact and the interval has
/// its lower end not above its upper end.
pub proof fn lemma_result_in_interval<T: Scalar, F: Dim1Fn<T>>(
    problem: FindRootProblem<T, F>,
    stop_cond: IterStopCondition<T>,
    res: SolveResult<T>,
)
    requires
        is_bisection_result(problem, stop_cond, res),
    ensures
        in_interval_where_exact(problem, res.root()),
{
    assert forall|val: spec_fn(T) -> real|
        #[trigger] exact_arithmetic(val) && val(problem.lower()) <= val(
            problem.upper(),
        ) implies val(problem.lower()) <= val(res.root()) <= val(problem.upper()) by {
        lemma_bisection_root_in_interval(val, problem, stop_cond, res);
    }
}

/// Under exact arithmetic, a bracket whose ends have residuals with a
/// product not above zero is halved into one of which the same holds: the
/// bracket is never lost.
pub proof fn lemma_halve_keeps_root<T: Scalar, F: Dim1Fn<T>>(
    val: spec_fn(T) -> real,
    func: F,
    bracket: Bracket<T>,
)
    requires
        exact_arithmetic(val),
        brackets_root(func, bracket.lo, bracket.hi),
    ensures
        brackets_root(func, bracket.halve(func).lo, bracket.halve(func).hi),
{
    let u = val(func.eval_spec(bracket.lo));
    let v = val(func.eval_spec(bracket.hi));
    let w = val(func.eval_spec(bracket.mid()));
    assert(u * v <= 0real && u * w > 0real ==> w * v <= 0real) by (nonlinear_arith);
}

/// Under exact arithmetic, every bracket of a valid problem has ends whose
/// residuals have a product not above zero.
pub proof fn lemma_bracket_keeps_root<T: Scalar, F: Dim1Fn<T>>(
    val: spec_fn(T) -> real,
    problem: FindRootProblem<T, F>,
    k: nat,
)
    requires
        exact_arithmetic(val),
        problem.is_valid(),
    ensures
        brackets_root(
            problem.function(),
            bracket_after(problem, k).lo,
            bracket_after(problem, k).hi,
        ),
    decreases k,
{
    if k > 0 {
        lemma_bracket_keeps_root(val, problem, (k - 1) as nat);
        lemma_halve_keeps_root(val, problem.function(), bracket_after(problem, (k - 1) as nat));
    }
}

/// Under exact arithmetic, where the residual at the lower end of the
/// interval is zero, the lower end of every bracket is that end, and an
/// estimate returned for the tolerance on `x` is within that tolerance of
/// it, scaled by the magnitude of the end where that is above one.
pub proof fn lemma_root_at_lower_end<T: Scalar, F: Dim1Fn<T>>(
    val: spec_fn(T) -> real,
    problem: FindRootProblem<T, F>,
    stop_cond: IterStopCondition<T>,
    res: SolveResult<T>,
)
    requires
        exact_arithmetic(val),
        val(problem.function().eval_spec(problem.lower())) == 0real,
        is_bisection_result(problem, stop_cond, res),
    ensures
        forall|k: nat| (#[trigger] bracket_after(problem, k)).lo == problem.lower(),
        res.stop_reason() == StopReason::TolorencyX ==> val(res.root()) - val(problem.lower())
            <= val(stop_cond.x_tolorency()) * larger(magnitude(val(problem.lower())), 1real),
{
    assert forall|k: nat| (#[trigger] bracket_after(problem, k)).lo == problem.lower() by {
        lemma_lower_end_stays(val, problem, k);
    }
    lemma_derived_operations(val);
    let last = bracket_after(problem, res.iter_count() as nat);
    assert(last.lo == problem.lower());
    if res.stop_reason() == StopReason::TolorencyX {
        let tol = val(stop_cond.x_tolorency());
        let scale = larger(magnitude(val(problem.lower())), 1real);
        assert(last.narrow_enough(stop_cond.x_tolorency()));
        assert(val(last.hi) - val(last.lo) <= tol * 2real * scale);
        assert(tol * 2real * scale == 2real * (tol * scale)) by (nonlinear_arith);
    }
}

/// Under exact arithmetic, where the residual at the lower end of the
/// interval is zero, the lower end of the bracket never moves.
proof fn lemma_lower_end_stays<T: Scalar, F: Dim1Fn<T>>(
    val: spec_fn(T) -> real,
    problem: FindRootProblem<T, F>,
    k: nat,
)
    requires
        exact_arithmetic(val),
        val(problem.function().eval_spec(problem.lower())) == 0real,
    ensures
        bracket_after(problem, k).lo == problem.lower(),
    decreases k,
{
    if k > 0 {
        lemma_lower_end_stays(val, problem, (k - 1) as nat);
        let before = bracket_after(problem, (k - 1) as nat);
        let u = val(problem.function().eval_spec(before.lo));
        let w = val(problem.function().eval_spec(before.mid()));
        assert(u == 0real ==> u * w == 0real) by (nonlinear_arith);
    }
}

/// Under exact arithmetic, with a tolerance on `x` that is not negative,
/// bisection stops at the latest at the iteration `k` by which halving has
/// brought the width of the search interval down to twice the tolerance.
pub proof fn lemma_bisection_converges<T: Scalar, F: Dim1Fn<T>>(
    val: spec_fn(T) -> real,
    problem: FindRootProblem<T, F>,
    stop_cond: IterStopCondition<T>,
    res: SolveResult<T>,
    k: nat,
)
    requires
        exact_arithmetic(val),
        is_bisection_result(problem, stop_cond, res),
        0real <= val(stop_cond.x_tolorency()),
        val(problem.upper()) - val(problem.lower()) <= 2real * val(stop_cond.x_tolorency())
            * pow2(k),
    ensures
        res.iter_count() <= k,
{
    if res.iter_count() > k {
        assert(stops_at(problem, stop_cond, k).is_none());
        lemma_derived_operations(val);
        lemma_width_after(val, problem, k);
        crate::exact::lemma_pow2_positive(k);
        let bracket = bracket_after(problem, k);
        let w = val(bracket.width());
        let tol = val(stop_cond.x_tolorency());
        let scale = larger(magnitude(val(bracket.lo)), 1real);
        let p = pow2(k);
        assert(!bracket.narrow_enough(stop_cond.x_tolorency()));
        assert(w > tol * 2real * scale);
        assert(tol * 2real * scale >= 2real * tol) by (nonlinear_arith)
            requires
                tol >= 0real,
                scale >= 1real,
        ;
        assert(w * p > (2real * tol) * p) by (nonlinear_arith)
            requires
                w > 2real * tol,
                p > 0real,
        ;
    }
}

} // verus!
