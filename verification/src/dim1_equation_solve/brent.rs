//! Brent's method: inverse quadratic interpolation where it is safe, the
//! secant where it is not, and bisection where neither is.

use crate::dim1_equation_solve::find_root::in_interval_where_exact;
use crate::dim1_equation_solve::find_root::FindRootProblem;
use crate::dim1_equation_solve::find_root::IterStopCondition;
use crate::dim1_equation_solve::find_root::SolveResult;
use crate::dim1_equation_solve::find_root::StopReason;
use crate::dim1_equation_solve::interpolation::distinct_residuals;
use crate::dim1_equation_solve::interpolation::inverse_quad_interpolation;
use crate::dim1_equation_solve::interpolation::inverse_quad_spec;
use crate::dim1_equation_solve::interpolation::lemma_secant_between;
use crate::dim1_equation_solve::interpolation::regula_falsi;
use crate::dim1_equation_solve::interpolation::regula_falsi_spec;
use crate::dim1_func::Dim1Fn;
use crate::exact::exact_arithmetic;
use crate::exact::lemma_derived_operations;
use crate::exact::lemma_pow2_positive;
use crate::exact::pow2;
use crate::float_traits::Abs;
use crate::float_traits::MaxMin;
use crate::float_traits::Scalar;
use vstd::prelude::*;

verus! {

/// A point of the function's graph, with the magnitude of its residual.
#[derive(Clone, Copy, Debug)]
pub struct Point<T> {
    pub x: T,
    pub y: T,
    pub y_abs: T,
}

impl<T: Scalar> Point<T> {
    /// The point of the graph of `func` at `x`.
    pub open spec fn at<F: Dim1Fn<T>>(func: F, x: T) -> Self {
        Point {
            x,
            y: func.eval_spec(x),
            y_abs: crate::float_traits::abs_spec(func.eval_spec(x)),
        }
    }
}

/// Evaluates the problem's function at `x`.
pub fn sample<T, F>(problem: &FindRootProblem<T, F>, x: T) -> (p: Point<T>) where
    T: Scalar + Abs,
    F: Dim1Fn<T>,
    ensures
        p == Point::at(problem.function(), x),
{
    let y = problem.func_eval(x);
    Point { x, y, y_abs: y.abs() }
}

/// Whether two residuals lie strictly on the same side of zero: their
/// product is above zero.
pub open spec fn same_side<T: Scalar>(u: T, v: T) -> bool {
    T::ZERO.lt_spec(u.mul_spec(v))
}

/// Which of the three tracked points a candidate displaces, and where the
/// others go. Each variant names the points that are left, mid and right
/// afterwards.
#[derive(Clone, Copy, Debug, PartialEq, Eq, Structural)]
pub enum Placement {
    /// Mid, right, candidate: the candidate lies beyond the right end.
    BeyondRight,
    /// Candidate, left, mid: the candidate lies beyond the left end.
    BeyondLeft,
    /// Mid, candidate, right.
    MidAsLeft,
    /// Candidate, mid, right.
    AsLeft,
    /// Left, mid, candidate.
    AsRight,
    /// Left, candidate, mid.
    MidAsRight,
}

impl Placement {
    /// Whether the placement removes the left end; every other removes the
    /// right end.
    pub open spec fn drops_left(self) -> bool {
        self == Placement::BeyondRight || self == Placement::MidAsLeft || self
            == Placement::AsLeft
    }
}

/// The placement that keeps a root bracketed, if there is one.
///
/// `outside`: the candidate lies outside the bracket. `right_of_mid`: it
/// lies to the right of mid. `mid_with_left`, `candidate_with_left`: the
/// residual at mid, at the candidate, lies on the same side of zero as the
/// residual at the left end.
pub open spec fn placement_for(
    outside: bool,
    right_of_mid: bool,
    mid_with_left: bool,
    candidate_with_left: bool,
) -> Option<Placement> {
    if outside {
        if mid_with_left == candidate_with_left {
            None
        } else if right_of_mid {
            Some(Placement::BeyondRight)
        } else {
            Some(Placement::BeyondLeft)
        }
    } else if candidate_with_left {
        if !right_of_mid {
            Some(Placement::AsLeft)
        } else if mid_with_left {
            Some(Placement::MidAsLeft)
        } else {
            None
        }
    } else {
        if right_of_mid {
            Some(Placement::AsRight)
        } else if mid_with_left {
            None
        } else {
            Some(Placement::MidAsRight)
        }
    }
}

/// Computes the placement that keeps a root bracketed, if there is one.
pub fn choose_placement(
    outside: bool,
    right_of_mid: bool,
    mid_with_left: bool,
    candidate_with_left: bool,
) -> (how: Option<Placement>)
    ensures
        how == placement_for(outside, right_of_mid, mid_with_left, candidate_with_left),
{
    if outside {
        if mid_with_left == candidate_with_left {
            None
        } else if right_of_mid {
            Some(Placement::BeyondRight)
        } else {
            Some(Placement::BeyondLeft)
        }
    } else if candidate_with_left {
        if !right_of_mid {
            Some(Placement::AsLeft)
        } else if mid_with_left {
            Some(Placement::MidAsLeft)
        } else {
            None
        }
    } else {
        if right_of_mid {
            Some(Placement::AsRight)
        } else if mid_with_left {
            None
        } else {
            Some(Placement::MidAsRight)
        }
    }
}

/// The three points that Brent's method tracks: the ends of the bracket and
/// a third point, mid.
#[derive(Debug)]
pub struct RootState<T> {
    pub left: Point<T>,
    pub right: Point<T>,
    pub mid: Point<T>,
    /// Whether mid has the abscissa of one of the ends.
    pub dup: bool,
}

impl<T: Scalar> RootState<T> {
    /// The width of the bracket.
    pub open spec fn width(self) -> T {
        self.right.x.sub_spec(self.left.x)
    }

    /// The three points with the flag that says whether mid has the
    /// abscissa of one of the ends.
    pub open spec fn of(left: Point<T>, mid: Point<T>, right: Point<T>) -> Self {
        RootState { left, right, mid, dup: left.x.eq_spec(mid.x) || right.x.eq_spec(mid.x) }
    }

    /// The placement that the candidate `p` would get.
    pub open spec fn placement(self, p: Point<T>) -> Option<Placement> {
        placement_for(
            p.x.lt_spec(self.left.x) || self.right.x.lt_spec(p.x),
            self.mid.x.lt_spec(p.x),
            same_side(self.left.y, self.mid.y),
            same_side(self.left.y, p.y),
        )
    }

    /// The state after the candidate `p` is placed as `how` says.
    pub open spec fn placed(self, p: Point<T>, how: Placement) -> Self {
        match how {
            Placement::BeyondRight => Self::of(self.mid, self.right, p),
            Placement::BeyondLeft => Self::of(p, self.left, self.mid),
            Placement::MidAsLeft => Self::of(self.mid, p, self.right),
            Placement::AsLeft => Self::of(p, self.mid, self.right),
            Placement::AsRight => Self::of(self.left, self.mid, p),
            Placement::MidAsRight => Self::of(self.left, p, self.mid),
        }
    }

    /// The end of the bracket that the placement `how` removes.
    pub open spec fn leaving(self, how: Placement) -> Point<T> {
        if how.drops_left() {
            self.left
        } else {
            self.right
        }
    }

    /// Whether the candidate `p` may be placed as `how` says: twice the
    /// width of the new bracket is at most the width of the old one, and the
    /// residual at the end that leaves is at least as large in magnitude as
    /// the residual at the candidate.
    pub open spec fn admits(self, p: Point<T>, how: Placement) -> bool {
        &&& self.placed(p, how).width().mul_spec(crate::float_traits::two_spec::<T>()).le_spec(
            self.width(),
        )
        &&& p.y_abs.le_spec(self.leaving(how).y_abs)
    }

    /// The state after the candidate `p` is inserted, or `None` where it is
    /// rejected: where no placement keeps a root bracketed, or the one that
    /// does is not admitted.
    pub open spec fn inserted(self, p: Point<T>) -> Option<Self> {
        match self.placement(p) {
            Some(how) => if self.admits(p, how) {
                Some(self.placed(p, how))
            } else {
                None
            },
            None => None,
        }
    }

    /// Builds the state from the three points.
    fn assemble(left: Point<T>, mid: Point<T>, right: Point<T>) -> (state: Self)
        ensures
            state == Self::of(left, mid, right),
    {
        let dup = left.x.eq(mid.x) || right.x.eq(mid.x);
        RootState { left, right, mid, dup }
    }

    /// Inserts the candidate `p` where that keeps a root bracketed and at
    /// least halves the bracket, and tells whether it did. A rejected
    /// candidate leaves the state as it was.
    pub fn insert(&mut self, p: Point<T>) -> (accepted: bool)
        ensures
            accepted == old(self).inserted(p).is_some(),
            *final(self) == match old(self).inserted(p) {
                Some(state) => state,
                None => *old(self),
            },
    {
        let left_mid_same_side = T::ZERO.lt(self.left.y.mul(self.mid.y));
        let left_p_same_side = T::ZERO.lt(self.left.y.mul(p.y));
        let p_right_to_mid = self.mid.x.lt(p.x);
        let p_outside_range = p.x.lt(self.left.x) || self.right.x.lt(p.x);
        let old_interval = self.right.x.sub(self.left.x);

        match choose_placement(
            p_outside_range,
            p_right_to_mid,
            left_mid_same_side,
            left_p_same_side,
        ) {
            None => false,
            Some(how) => {
                let next = match how {
                    Placement::BeyondRight => Self::assemble(self.mid, self.right, p),
                    Placement::BeyondLeft => Self::assemble(p, self.left, self.mid),
                    Placement::MidAsLeft => Self::assemble(self.mid, p, self.right),
                    Placement::AsLeft => Self::assemble(p, self.mid, self.right),
                    Placement::AsRight => Self::assemble(self.left, self.mid, p),
                    Placement::MidAsRight => Self::assemble(self.left, p, self.mid),
                };
                let leaving = match how {
                    Placement::BeyondRight | Placement::MidAsLeft | Placement::AsLeft => self.left,
                    _ => self.right,
                };
                let new_interval = next.right.x.sub(next.left.x);
                if new_interval.mul(crate::float_traits::two::<T>()).le(old_interval)
                    && p.y_abs.le(leaving.y_abs) {
                    *self = next;
                    true
                } else {
                    false
                }
            },
        }
    }
}

/// What one iteration of Brent's method comes to.
pub enum Advance<T> {
    /// A candidate at this abscissa has a residual within the tolerance.
    Found(T),
    /// The tracked points moved to this state.
    Moved(RootState<T>),
}

impl<T: Scalar> RootState<T> {
    /// The state before the first iteration: the ends of the interval and
    /// its midpoint.
    pub open spec fn initial<F: Dim1Fn<T>>(func: F, lo: T, hi: T) -> Self {
        Self::of(
            Point::at(func, lo),
            Point::at(func, crate::float_traits::midpoint_spec(lo, hi)),
            Point::at(func, hi),
        )
    }

    /// Whether the bracket is as narrow as the tolerance `x_tol` asks: its
    /// width is at most twice the tolerance, scaled by the magnitude of mid.
    pub open spec fn narrow_enough(self, x_tol: T) -> bool {
        self.width().le_spec(
            x_tol.mul_spec(crate::float_traits::two_spec::<T>()).mul_spec(
                crate::float_traits::max_spec(crate::float_traits::abs_spec(self.mid.x), T::ZERO),
            ),
        )
    }

    /// Whether interpolation is attempted: mid is a third abscissa, and no
    /// two residuals coincide.
    pub open spec fn interpolates(self) -> bool {
        !self.dup && distinct_residuals((self.left.y, self.mid.y, self.right.y))
    }

    /// The candidate of inverse quadratic interpolation.
    pub open spec fn interpolated(self) -> T {
        inverse_quad_spec(
            (self.left.x, self.mid.x, self.right.x),
            (self.left.y, self.mid.y, self.right.y),
        )
    }

    /// Whether the secant step is attempted: the residuals at the ends
    /// differ.
    pub open spec fn has_secant(self) -> bool {
        !self.left.y.eq_spec(self.right.y)
    }

    /// The candidate of the secant step.
    pub open spec fn secant(self) -> T {
        regula_falsi_spec((self.left.x, self.right.x), (self.left.y, self.right.y))
    }

    /// What becomes of the candidate at `x`: found, where its residual is
    /// below `y_tol` in magnitude; else moved, where it is inserted; else
    /// nothing.
    pub open spec fn offered<F: Dim1Fn<T>>(self, func: F, y_tol: T, x: T) -> Option<Advance<T>> {
        let p = Point::at(func, x);
        if p.y_abs.lt_spec(y_tol) {
            Some(Advance::Found(x))
        } else {
            match self.inserted(p) {
                Some(state) => Some(Advance::Moved(state)),
                None => None,
            }
        }
    }

    /// The state after a bisection at the point `p`: `p` replaces the right
    /// end where its residual and that at the left end have a product not
    /// above zero, else the left end; mid is the midpoint of the new bracket.
    pub open spec fn bisected<F: Dim1Fn<T>>(self, func: F, p: Point<T>) -> Self {
        let (left, right) = if self.left.y.mul_spec(p.y).le_spec(T::ZERO) {
            (self.left, p)
        } else {
            (p, self.right)
        };
        Self::of(left, Point::at(func, crate::float_traits::midpoint_spec(left.x, right.x)), right)
    }

    /// What bisection at the midpoint of the bracket comes to.
    pub open spec fn halved<F: Dim1Fn<T>>(self, func: F, y_tol: T) -> Advance<T> {
        let p = Point::at(func, crate::float_traits::midpoint_spec(self.left.x, self.right.x));
        if p.y_abs.lt_spec(y_tol) {
            Advance::Found(p.x)
        } else {
            Advance::Moved(self.bisected(func, p))
        }
    }

    /// What one iteration comes to: the first of interpolation, secant and
    /// bisection whose candidate is found or inserted.
    pub open spec fn advanced<F: Dim1Fn<T>>(self, func: F, y_tol: T) -> Advance<T> {
        let first = if self.interpolates() {
            self.offered(func, y_tol, self.interpolated())
        } else {
            None
        };
        let second = if self.has_secant() {
            self.offered(func, y_tol, self.secant())
        } else {
            None
        };
        match first {
            Some(advance) => advance,
            None => match second {
                Some(advance) => advance,
                None => self.halved(func, y_tol),
            },
        }
    }
}

impl<T: Scalar> RootState<T> {
    /// Whether the three tracked points are points of the graph of `func`.
    pub open spec fn on_graph<F: Dim1Fn<T>>(self, func: F) -> bool {
        &&& self.left == Point::at(func, self.left.x)
        &&& self.mid == Point::at(func, self.mid.x)
        &&& self.right == Point::at(func, self.right.x)
    }

    /// An iteration from points of the graph moves to points of the graph.
    pub proof fn lemma_advanced_on_graph<F: Dim1Fn<T>>(self, func: F, y_tol: T)
        requires
            self.on_graph(func),
        ensures
            self.advanced(func, y_tol) matches Advance::Moved(next) ==> next.on_graph(func),
    {
    }
}

impl<T: Scalar + Abs> RootState<T> {
    /// Offers the candidate at `x`: `Some(Some(x))` where its residual is
    /// below `y_tol` in magnitude, `Some(None)` where it was inserted, `None`
    /// where it was rejected. Only an inserted candidate changes the state.
    fn offer<F: Dim1Fn<T>>(&mut self, problem: &FindRootProblem<T, F>, y_tol: T, x: T) -> (taken:
        Option<Option<T>>)
        ensures
            match old(self).offered(problem.function(), y_tol, x) {
                Some(Advance::Found(at)) => taken == Some(Some(at)) && *final(self) == *old(self),
                Some(Advance::Moved(state)) => taken == Some(None::<T>) && *final(self) == state,
                None => taken.is_none() && *final(self) == *old(self),
            },
    {
        let p = sample(problem, x);
        if p.y_abs.lt(y_tol) {
            Some(Some(p.x))
        } else if self.insert(p) {
            Some(None)
        } else {
            None
        }
    }

    /// Carries out one iteration: tries interpolation, then the secant, then
    /// bisection, and stops at the first whose candidate is found or
    /// inserted. Returns the abscissa of a found candidate, and `None` where
    /// the state moved.
    pub fn advance<F: Dim1Fn<T>>(&mut self, problem: &FindRootProblem<T, F>, y_tol: T) -> (found:
        Option<T>)
        ensures
            match old(self).advanced(problem.function(), y_tol) {
                Advance::Found(at) => found == Some(at) && *final(self) == *old(self),
                Advance::Moved(state) => found.is_none() && *final(self) == state,
            },
    {
        if !self.dup && !self.left.y.eq(self.mid.y) && !self.mid.y.eq(self.right.y)
            && !self.left.y.eq(self.right.y) {
            let x = inverse_quad_interpolation(
                (self.left.x, self.mid.x, self.right.x),
                (self.left.y, self.mid.y, self.right.y),
            );
            match self.offer(problem, y_tol, x) {
                Some(found) => {
                    return found;
                },
                None => {},
            }
        }
        if !self.left.y.eq(self.right.y) {
            let x = regula_falsi((self.left.x, self.right.x), (self.left.y, self.right.y));
            match self.offer(problem, y_tol, x) {
                Some(found) => {
                    return found;
                },
                None => {},
            }
        }
        let p = sample(problem, crate::float_traits::midpoint(self.left.x, self.right.x));
        if p.y_abs.lt(y_tol) {
            return Some(p.x);
        }
        let (left, right) = if self.left.y.mul(p.y).le(T::ZERO) {
            (self.left, p)
        } else {
            (p, self.right)
        };
        let mid = sample(problem, crate::float_traits::midpoint(left.x, right.x));
        *self = Self::assemble(left, mid, right);
        None
    }
}

/// The state that Brent's method holds after `k` iterations, none of which
/// stopped.
pub open spec fn state_after<T: Scalar, F: Dim1Fn<T>>(
    problem: FindRootProblem<T, F>,
    y_tol: T,
    k: nat,
) -> RootState<T>
    decreases k,
{
    if k == 0 {
        RootState::initial(problem.function(), problem.lower(), problem.upper())
    } else {
        let before = state_after(problem, y_tol, (k - 1) as nat);
        match before.advanced(problem.function(), y_tol) {
            Advance::Moved(state) => state,
            Advance::Found(_) => before,
        }
    }
}

/// The criterion, if any, that stops Brent's method at iteration `k`, with
/// the estimate returned. The iteration limit is tested first, then the
/// tolerance on `x`, then the tolerance on `y` at mid, then the tolerance on
/// `y` at the candidates of the iteration.
pub open spec fn stops_at<T: Scalar, F: Dim1Fn<T>>(
    problem: FindRootProblem<T, F>,
    stop_cond: IterStopCondition<T>,
    k: nat,
) -> Option<(StopReason, T)> {
    let state = state_after(problem, stop_cond.y_tolorency(), k);
    if k >= stop_cond.iteration_cap() {
        Some((StopReason::IterCountLimit, state.mid.x))
    } else if state.narrow_enough(stop_cond.x_tolorency()) {
        Some((StopReason::TolorencyX, state.mid.x))
    } else if state.mid.y_abs.lt_spec(stop_cond.y_tolorency()) {
        Some((StopReason::TolorencyY, state.mid.x))
    } else {
        match state.advanced(problem.function(), stop_cond.y_tolorency()) {
            Advance::Found(at) => Some((StopReason::TolorencyY, at)),
            Advance::Moved(_) => None,
        }
    }
}

/// Whether `res` is what Brent's method returns: its iteration count is the
/// first iteration at which a criterion holds, with that criterion as its
/// reason and the estimate of that iteration as its root.
pub open spec fn is_brent_result<T: Scalar, F: Dim1Fn<T>>(
    problem: FindRootProblem<T, F>,
    stop_cond: IterStopCondition<T>,
    res: SolveResult<T>,
) -> bool {
    let n = res.iter_count() as nat;
    &&& forall|j: nat| j < n ==> (#[trigger] stops_at(problem, stop_cond, j)).is_none()
    &&& stops_at(problem, stop_cond, n) == Some((res.stop_reason(), res.root()))
}

/// Whether every interpolated candidate that the iterations up to and with
/// iteration `n` take lies in the bracket of its iteration.
pub open spec fn interpolation_stays_inside<T: Scalar, F: Dim1Fn<T>>(
    problem: FindRootProblem<T, F>,
    stop_cond: IterStopCondition<T>,
    n: nat,
) -> bool {
    forall|j: nat|
        j <= n ==> (#[trigger] state_after(
            problem,
            stop_cond.y_tolorency(),
            j,
        )).interpolates_inside(problem.function(), stop_cond.y_tolorency())
}

/// Finds a root of the problem's function in its interval by Brent's method.
///
/// Each iteration tests the iteration limit, then the width of the bracket
/// against the tolerance on `x`, then the residual at mid against the
/// tolerance on `y`, and, where none stops it, advances the tracked points.
/// Without an iteration limit the solve ends at the latest when the count
/// reaches `usize::MAX`.
pub fn brent_solve<T, F>(
    problem: &FindRootProblem<T, F>,
    stop_cond: &IterStopCondition<T>,
) -> (res: SolveResult<T>) where T: Scalar + Abs + MaxMin, F: Dim1Fn<T>
    ensures
        is_brent_result(*problem, *stop_cond, res),
        res.iter_count() <= stop_cond.iteration_cap(),
        res.stop_reason() == StopReason::IterCountLimit <==> res.iter_count()
            == stop_cond.iteration_cap(),
        res.stop_reason() == StopReason::TolorencyY ==> crate::float_traits::abs_spec(
            problem.function().eval_spec(res.root()),
        ).lt_spec(stop_cond.y_tolorency()),
        problem.is_valid() && interpolation_stays_inside(
            *problem,
            *stop_cond,
            res.iter_count() as nat,
        ) ==> in_interval_where_exact(*problem, res.root()),
{
    let range = problem.search_range();
    let (a, b) = (range.start, range.end);
    let c = crate::float_traits::midpoint(a, b);
    let left = sample(problem, a);
    let right = sample(problem, b);
    let mid = sample(problem, c);
    let mut root_state = RootState::assemble(left, mid, right);
    let y_tol = stop_cond.y_tolorency();
    let cap: usize = match stop_cond.iter_count_limit() {
        Some(limit) => limit,
        None => usize::MAX,
    };
    let mut iter_count: usize = 0;

    loop
        invariant
            cap == stop_cond.iteration_cap(),
            y_tol == stop_cond.y_tolorency(),
            iter_count <= cap,
            root_state == state_after(*problem, y_tol, iter_count as nat),
            root_state.on_graph(problem.function()),
            forall|j: nat|
                j < iter_count ==> (#[trigger] stops_at(*problem, *stop_cond, j)).is_none(),
        decreases cap - iter_count,
    {
        if iter_count >= cap {
            let res = SolveResult::new(root_state.mid.x, iter_count, StopReason::IterCountLimit);
            proof {
                lemma_result_in_interval(*problem, *stop_cond, res);
            }
            return res;
        }
        let scale = root_state.mid.x.abs().max(T::ZERO);
        if root_state.right.x.sub(root_state.left.x).le(
            stop_cond.x_tolorency().mul(crate::float_traits::two::<T>()).mul(scale),
        ) {
            let res = SolveResult::new(root_state.mid.x, iter_count, StopReason::TolorencyX);
            proof {
                lemma_result_in_interval(*problem, *stop_cond, res);
            }
            return res;
        }
        if root_state.mid.y_abs.lt(y_tol) {
            let res = SolveResult::new(root_state.mid.x, iter_count, StopReason::TolorencyY);
            proof {
                lemma_result_in_interval(*problem, *stop_cond, res);
            }
            return res;
        }
        proof {
            root_state.lemma_advanced_on_graph(problem.function(), y_tol);
        }
        match root_state.advance(problem, y_tol) {
            Some(x) => {
                let res = SolveResult::new(x, iter_count, StopReason::TolorencyY);
                proof {
                    lemma_result_in_interval(*problem, *stop_cond, res);
                }
                return res;
            },
            None => {
                iter_count += 1;
            },
        }
    }
}

impl<T: Scalar> RootState<T> {
    /// Whether, under the reading `val`, left, mid and right lie in this
    /// order.
    pub open spec fn ordered(self, val: spec_fn(T) -> real) -> bool {
        val(self.left.x) <= val(self.mid.x) <= val(self.right.x)
    }

    /// Whether the residuals at the ends of the bracket have a product that
    /// is not above zero.
    pub open spec fn keeps_root(self) -> bool {
        self.left.y.mul_spec(self.right.y).le_spec(T::ZERO)
    }

    /// Under exact arithmetic, an inserted candidate leaves the points in
    /// order and the residuals at the ends with a product not above zero,
    /// and the new bracket is at most half as wide as the old one.
    pub proof fn lemma_inserted(self, val: spec_fn(T) -> real, p: Point<T>)
        requires
            exact_arithmetic(val),
            self.ordered(val),
            self.keeps_root(),
            self.inserted(p).is_some(),
        ensures
            self.inserted(p).unwrap().ordered(val),
            self.inserted(p).unwrap().keeps_root(),
            2real * val(self.inserted(p).unwrap().width()) <= val(self.width()),
    {
        lemma_derived_operations(val);
        let l = val(self.left.y);
        let m = val(self.mid.y);
        let r = val(self.right.y);
        let q = val(p.y);
        assert(l * r <= 0real && l * m > 0real ==> m * r <= 0real) by (nonlinear_arith);
        assert(l * r <= 0real && l * q > 0real ==> q * r <= 0real) by (nonlinear_arith);
        assert(l * m > 0real && l * q <= 0real ==> m * q <= 0real) by (nonlinear_arith);
        assert(l * m <= 0real && l * q > 0real ==> m * q <= 0real) by (nonlinear_arith);
        assert(m * q == q * m) by (nonlinear_arith);
        let how = self.placement(p).unwrap();
        let next = self.placed(p, how);
        assert(val(next.width().mul_spec(crate::float_traits::two_spec::<T>())) == val(
            next.width(),
        ) * 2real);
    }

    /// Under exact arithmetic, bisection at the midpoint of the bracket
    /// leaves the points in order and the residuals at the ends with a
    /// product not above zero, and halves the bracket.
    pub proof fn lemma_bisected<F: Dim1Fn<T>>(self, val: spec_fn(T) -> real, func: F)
        requires
            exact_arithmetic(val),
            val(self.left.x) <= val(self.right.x),
            self.keeps_root(),
        ensures
            ({
                let p = Point::at(
                    func,
                    crate::float_traits::midpoint_spec(self.left.x, self.right.x),
                );
                let next = self.bisected(func, p);
                &&& next.ordered(val)
                &&& next.keeps_root()
                &&& 2real * val(next.width()) == val(self.width())
                &&& val(self.left.x) <= val(next.left.x)
                &&& val(next.right.x) <= val(self.right.x)
            }),
    {
        lemma_derived_operations(val);
        let p = Point::at(func, crate::float_traits::midpoint_spec(self.left.x, self.right.x));
        let l = val(self.left.y);
        let r = val(self.right.y);
        let q = val(p.y);
        assert(l * r <= 0real && l * q > 0real ==> q * r <= 0real) by (nonlinear_arith);
    }

    /// Under exact arithmetic, an iteration that moves the state leaves the
    /// points in order and the residuals at the ends with a product not above
    /// zero, and the new bracket is at most half as wide as the old one.
    pub proof fn lemma_advanced<F: Dim1Fn<T>>(self, val: spec_fn(T) -> real, func: F, y_tol: T)
        requires
            exact_arithmetic(val),
            self.ordered(val),
            self.keeps_root(),
        ensures
            self.advanced(func, y_tol) matches Advance::Moved(next) ==> {
                &&& next.ordered(val)
                &&& next.keeps_root()
                &&& 2real * val(next.width()) <= val(self.width())
            },
    {
        if self.interpolates() {
            let p = Point::at(func, self.interpolated());
            if self.inserted(p).is_some() {
                self.lemma_inserted(val, p);
            }
        }
        if self.has_secant() {
            let p = Point::at(func, self.secant());
            if self.inserted(p).is_some() {
                self.lemma_inserted(val, p);
            }
        }
        self.lemma_bisected(val, func);
    }
}

impl<T: Scalar> RootState<T> {
    /// Whether the point `p` lies outside the bracket.
    pub open spec fn excludes(self, p: Point<T>) -> bool {
        p.x.lt_spec(self.left.x) || self.right.x.lt_spec(p.x)
    }

    /// Whether the candidate of interpolation, where the iteration from this
    /// state takes it, lies in the bracket.
    pub open spec fn interpolates_inside<F: Dim1Fn<T>>(self, func: F, y_tol: T) -> bool {
        self.interpolates() && self.offered(func, y_tol, self.interpolated()).is_some()
            ==> !self.excludes(Point::at(func, self.interpolated()))
    }

    /// Under exact arithmetic, a candidate from inside the bracket that is
    /// inserted leaves the new bracket inside the old one.
    pub proof fn lemma_inserted_inside(self, val: spec_fn(T) -> real, p: Point<T>)
        requires
            exact_arithmetic(val),
            self.ordered(val),
            !self.excludes(p),
            self.inserted(p).is_some(),
        ensures
            val(self.left.x) <= val(self.inserted(p).unwrap().left.x),
            val(self.inserted(p).unwrap().right.x) <= val(self.right.x),
    {
    }

    /// Under exact arithmetic, an iteration whose interpolated candidate,
    /// where it takes it, lies in the bracket gives a candidate that it
    /// finds, or a new bracket, inside the old bracket.
    pub proof fn lemma_advanced_inside<F: Dim1Fn<T>>(
        self,
        val: spec_fn(T) -> real,
        func: F,
        y_tol: T,
    )
        requires
            exact_arithmetic(val),
            self.ordered(val),
            self.keeps_root(),
            self.interpolates_inside(func, y_tol),
        ensures
            match self.advanced(func, y_tol) {
                Advance::Found(at) => val(self.left.x) <= val(at) <= val(self.right.x),
                Advance::Moved(next) => val(self.left.x) <= val(next.left.x) && val(next.right.x)
                    <= val(self.right.x),
            },
    {
        lemma_derived_operations(val);
        if self.interpolates() {
            let p = Point::at(func, self.interpolated());
            if self.inserted(p).is_some() && !self.excludes(p) {
                self.lemma_inserted_inside(val, p);
            }
        }
        if self.has_secant() {
            let p = Point::at(func, self.secant());
            lemma_secant_between(
                val,
                (self.left.x, self.right.x),
                (self.left.y, self.right.y),
            );
            if self.inserted(p).is_some() {
                self.lemma_inserted_inside(val, p);
            }
        }
        self.lemma_bisected(val, func);
    }
}

/// Whether none of the first `k` iterations of Brent's method stops.
pub open spec fn runs_for<T: Scalar, F: Dim1Fn<T>>(
    problem: FindRootProblem<T, F>,
    stop_cond: IterStopCondition<T>,
    k: nat,
) -> bool {
    forall|j: nat| j < k ==> (#[trigger] stops_at(problem, stop_cond, j)).is_none()
}

/// Under exact arithmetic, on a valid problem whose interval has its lower
/// end not above its upper end, the state after `k` iterations that did not
/// stop has its points in order, residuals at the ends of the bracket with a
/// product not above zero, and a bracket at most as wide as the search
/// interval divided by two to the power `k`: the width that bisection has
/// after as many iterations.
pub proof fn lemma_state_after<T: Scalar, F: Dim1Fn<T>>(
    val: spec_fn(T) -> real,
    problem: FindRootProblem<T, F>,
    stop_cond: IterStopCondition<T>,
    k: nat,
)
    requires
        exact_arithmetic(val),
        val(problem.lower()) <= val(problem.upper()),
        problem.is_valid(),
        runs_for(problem, stop_cond, k),
    ensures
        state_after(problem, stop_cond.y_tolorency(), k).ordered(val),
        state_after(problem, stop_cond.y_tolorency(), k).keeps_root(),
        val(state_after(problem, stop_cond.y_tolorency(), k).width()) * pow2(k) <= val(
            problem.upper(),
        ) - val(problem.lower()),
    decreases k,
{
    lemma_derived_operations(val);
    if k > 0 {
        let j = (k - 1) as nat;
        lemma_state_after(val, problem, stop_cond, j);
        let before = state_after(problem, stop_cond.y_tolorency(), j);
        before.lemma_advanced(val, problem.function(), stop_cond.y_tolorency());
        assert(stops_at(problem, stop_cond, j).is_none());
        let after = state_after(problem, stop_cond.y_tolorency(), k);
        let w = val(before.width());
        let v = val(after.width());
        let scale = pow2(j);
        assert(2real * v <= w && scale >= 0real ==> v * (2real * scale) <= w * scale)
            by (nonlinear_arith);
        lemma_pow2_positive(j);
    }
}

/// Under exact arithmetic, on a valid problem whose interval has its lower
/// end not above its upper end, the bracket that Brent's method holds after
/// `k` iterations that did not stop is no wider than the bracket that
/// bisection holds after as many.
pub proof fn lemma_no_wider_than_bisection<T: Scalar, F: Dim1Fn<T>>(
    val: spec_fn(T) -> real,
    problem: FindRootProblem<T, F>,
    stop_cond: IterStopCondition<T>,
    k: nat,
)
    requires
        exact_arithmetic(val),
        val(problem.lower()) <= val(problem.upper()),
        problem.is_valid(),
        runs_for(problem, stop_cond, k),
    ensures
        val(state_after(problem, stop_cond.y_tolorency(), k).width()) <= val(
            crate::dim1_equation_solve::bisection::bracket_after(problem, k).width(),
        ),
{
    lemma_state_after(val, problem, stop_cond, k);
    crate::dim1_equation_solve::bisection::lemma_width_after(val, problem, k);
    lemma_pow2_positive(k);
    let brent = val(state_after(problem, stop_cond.y_tolorency(), k).width());
    let bisection = val(
        crate::dim1_equation_solve::bisection::bracket_after(problem, k).width(),
    );
    let scale = pow2(k);
    assert(brent <= bisection) by (nonlinear_arith)
        requires
            brent * scale <= bisection * scale,
            scale > 0real,
    ;
}

/// Under exact arithmetic, on a valid problem whose interval has its lower
/// end not above its upper end, an estimate that Brent's method returns at
/// the iteration limit or for the tolerance on `x` lies in the bracket of the
/// iteration at which it stops.
pub proof fn lemma_brent_root_in_bracket<T: Scalar, F: Dim1Fn<T>>(
    val: spec_fn(T) -> real,
    problem: FindRootProblem<T, F>,
    stop_cond: IterStopCondition<T>,
    res: SolveResult<T>,
)
    requires
        exact_arithmetic(val),
        val(problem.lower()) <= val(problem.upper()),
        problem.is_valid(),
        is_brent_result(problem, stop_cond, res),
        res.stop_reason() != StopReason::TolorencyY,
    ensures
        ({
            let state = state_after(problem, stop_cond.y_tolorency(), res.iter_count() as nat);
            val(state.left.x) <= val(res.root()) <= val(state.right.x)
        }),
{
    lemma_state_after(val, problem, stop_cond, res.iter_count() as nat);
}

/// Under exact arithmetic, on a valid problem whose interval has its lower
/// end not above its upper end, the bracket after `k` iterations that did not
/// stop lies in the search interval, provided that every interpolated
/// candidate that those iterations took lay in the bracket of its iteration.
pub proof fn lemma_bracket_inside<T: Scalar, F: Dim1Fn<T>>(
    val: spec_fn(T) -> real,
    problem: FindRootProblem<T, F>,
    stop_cond: IterStopCondition<T>,
    k: nat,
)
    requires
        exact_arithmetic(val),
        val(problem.lower()) <= val(problem.upper()),
        problem.is_valid(),
        runs_for(problem, stop_cond, k),
        forall|j: nat|
            j < k ==> (#[trigger] state_after(
                problem,
                stop_cond.y_tolorency(),
                j,
            )).interpolates_inside(problem.function(), stop_cond.y_tolorency()),
    ensures
        val(problem.lower()) <= val(state_after(problem, stop_cond.y_tolorency(), k).left.x),
        val(state_after(problem, stop_cond.y_tolorency(), k).right.x) <= val(problem.upper()),
    decreases k,
{
    if k > 0 {
        let j = (k - 1) as nat;
        lemma_bracket_inside(val, problem, stop_cond, j);
        lemma_state_after(val, problem, stop_cond, j);
        let before = state_after(problem, stop_cond.y_tolorency(), j);
        assert(before.interpolates_inside(problem.function(), stop_cond.y_tolorency()));
        before.lemma_advanced_inside(val, problem.function(), stop_cond.y_tolorency());
        assert(stops_at(problem, stop_cond, j).is_none());
    }
}

/// Under exact arithmetic, on a valid problem whose interval has its lower
/// end not above its upper end, the estimate that Brent's method returns lies
/// in the search interval, provided that every interpolated candidate that
/// the solve took lay in the bracket of its iteration. (A candidate that
/// interpolation places outside the bracket may be taken, and then the
/// bracket, or the estimate, leaves the interval.)
pub proof fn lemma_brent_root_in_interval<T: Scalar, F: Dim1Fn<T>>(
    val: spec_fn(T) -> real,
    problem: FindRootProblem<T, F>,
    stop_cond: IterStopCondition<T>,
    res: SolveResult<T>,
)
    requires
        exact_arithmetic(val),
        val(problem.lower()) <= val(problem.upper()),
        problem.is_valid(),
        is_brent_result(problem, stop_cond, res),
        forall|j: nat|
            j <= res.iter_count() ==> (#[trigger] state_after(
                problem,
                stop_cond.y_tolorency(),
                j,
            )).interpolates_inside(problem.function(), stop_cond.y_tolorency()),
    ensures
        val(problem.lower()) <= val(res.root()) <= val(problem.upper()),
{
    let n = res.iter_count() as nat;
    lemma_bracket_inside(val, problem, stop_cond, n);
    lemma_state_after(val, problem, stop_cond, n);
    let state = state_after(problem, stop_cond.y_tolorency(), n);
    assert(state.interpolates_inside(problem.function(), stop_cond.y_tolorency()));
    state.lemma_advanced_inside(val, problem.function(), stop_cond.y_tolorency());
}

/// The estimate that Brent's method returns on a valid problem lies in the
/// search interval under every reading under which the arithmetic is exact
/// and the interval has its lower end not above its upper end, provided that
/// every interpolated candidate that the solve took lay in the bracket of its
/// iteration.
pub proof fn lemma_result_in_interval<T: Scalar, F: Dim1Fn<T>>(
    problem: FindRootProblem<T, F>,
    stop_cond: IterStopCondition<T>,
    res: SolveResult<T>,
)
    requires
        is_brent_result(problem, stop_cond, res),
    ensures
        problem.is_valid() && interpolation_stays_inside(
            problem,
            stop_cond,
            res.iter_count() as nat,
        ) ==> in_interval_where_exact(problem, res.root()),
{
    if problem.is_valid() && interpolation_stays_inside(
        problem,
        stop_cond,
        res.iter_count() as nat,
    ) {
        assert forall|val: spec_fn(T) -> real|
            #[trigger] exact_arithmetic(val) && val(problem.lower()) <= val(
                problem.upper(),
            ) implies val(problem.lower()) <= val(res.root()) <= val(problem.upper()) by {
            lemma_brent_root_in_interval(val, problem, stop_cond, res);
        }
    }
}

/// Under exact arithmetic, where the residual at the lower end of the
/// interval is zero, the left end of the bracket never moves.
pub proof fn lemma_left_end_stays<T: Scalar, F: Dim1Fn<T>>(
    val: spec_fn(T) -> real,
    problem: FindRootProblem<T, F>,
    y_tol: T,
    k: nat,
)
    requires
        exact_arithmetic(val),
        val(problem.function().eval_spec(problem.lower())) == 0real,
    ensures
        state_after(problem, y_tol, k).left == Point::at(problem.function(), problem.lower()),
    decreases k,
{
    if k > 0 {
        lemma_left_end_stays(val, problem, y_tol, (k - 1) as nat);
        let before = state_after(problem, y_tol, (k - 1) as nat);
        let func = problem.function();
        let l = val(before.left.y);
        assert forall|p: Point<T>| !same_side(before.left.y, p.y) by {
            let q = val(p.y);
            assert(l == 0real ==> l * q == 0real) by (nonlinear_arith);
        }
        assert forall|p: Point<T>| #[trigger]
            before.inserted(p).is_some() implies before.inserted(p).unwrap().left
            == before.left by {
            assert(!same_side(before.left.y, p.y));
            assert(!same_side(before.left.y, before.mid.y));
        }
        if before.interpolates() {
            let p = Point::at(func, before.interpolated());
            if before.inserted(p).is_some() {
                assert(before.inserted(p).unwrap().left == before.left);
            }
        }
        if before.has_secant() {
            let p = Point::at(func, before.secant());
            if before.inserted(p).is_some() {
                assert(before.inserted(p).unwrap().left == before.left);
            }
        }
        let p = Point::at(func, crate::float_traits::midpoint_spec(before.left.x, before.right.x));
        assert(!same_side(before.left.y, p.y));
        assert(l == 0real ==> l * val(p.y) == 0real) by (nonlinear_arith);
    }
}

/// Under exact arithmetic, where the residual at the lower end of the
/// interval is zero and that end is not above the upper end, an estimate
/// that Brent's method returns for the tolerance on `x` is not below the
/// lower end and within twice that tolerance of it, scaled by the magnitude
/// of the estimate.
pub proof fn lemma_brent_root_at_lower_end<T: Scalar, F: Dim1Fn<T>>(
    val: spec_fn(T) -> real,
    problem: FindRootProblem<T, F>,
    stop_cond: IterStopCondition<T>,
    res: SolveResult<T>,
)
    requires
        exact_arithmetic(val),
        val(problem.function().eval_spec(problem.lower())) == 0real,
        val(problem.lower()) <= val(problem.upper()),
        is_brent_result(problem, stop_cond, res),
        res.stop_reason() == StopReason::TolorencyX,
    ensures
        0real <= val(res.root()) - val(problem.lower()) <= 2real * (val(stop_cond.x_tolorency())
            * crate::exact::magnitude(val(res.root()))),
{
    lemma_derived_operations(val);
    let n = res.iter_count() as nat;
    let zero = val(problem.function().eval_spec(problem.lower()));
    let other = val(problem.function().eval_spec(problem.upper()));
    assert(zero == 0real ==> zero * other == 0real) by (nonlinear_arith);
    lemma_left_end_stays(val, problem, stop_cond.y_tolorency(), n);
    lemma_state_after(val, problem, stop_cond, n);
    let state = state_after(problem, stop_cond.y_tolorency(), n);
    let tol = val(stop_cond.x_tolorency());
    let scale = crate::exact::larger(crate::exact::magnitude(val(state.mid.x)), 0real);
    assert(state.narrow_enough(stop_cond.x_tolorency()));
    assert(val(state.right.x) - val(state.left.x) <= tol * 2real * scale);
    assert(tol * 2real * scale == 2real * (tol * scale)) by (nonlinear_arith);
}

/// Brent's method is a function of the problem and the stop condition: two
/// results of the same solve are the same result.
pub proof fn lemma_brent_deterministic<T: Scalar, F: Dim1Fn<T>>(
    problem: FindRootProblem<T, F>,
    stop_cond: IterStopCondition<T>,
    first: SolveResult<T>,
    second: SolveResult<T>,
)
    requires
        is_brent_result(problem, stop_cond, first),
        is_brent_result(problem, stop_cond, second),
    ensures
        first == second,
{
    let m = first.iter_count() as nat;
    let n = second.iter_count() as nat;
    if m < n {
        assert(stops_at(problem, stop_cond, m).is_none());
    }
    if n < m {
        assert(stops_at(problem, stop_cond, n).is_none());
    }
    first.lemma_same_fields(second);
}

/// With an iteration limit that no tolerance forestalls, Brent's method
/// stops at the limit: where no criterion but the limit holds at any of the
/// first `limit` iterations, the result has the reason `IterCountLimit` and
/// the count `limit`.
pub proof fn lemma_brent_runs_to_limit<T: Scalar, F: Dim1Fn<T>>(
    problem: FindRootProblem<T, F>,
    stop_cond: IterStopCondition<T>,
    res: SolveResult<T>,
    limit: usize,
)
    requires
        is_brent_result(problem, stop_cond, res),
        stop_cond.iter_count_limit() == Some(limit),
        runs_for(problem, stop_cond, limit as nat),
    ensures
        res.stop_reason() == StopReason::IterCountLimit,
        res.iter_count() == limit,
{
    let n = res.iter_count() as nat;
    if n < limit {
        assert(stops_at(problem, stop_cond, n).is_none());
    }
    if n > limit {
        assert(stops_at(problem, stop_cond, limit as nat).is_none());
    }
}

} // verus!
