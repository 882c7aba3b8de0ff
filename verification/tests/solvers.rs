use approx::{AbsDiffEq, RelativeEq};
use numerical_algo_examples::dim1_equation_solve::bisection::bisection_solve;
use numerical_algo_examples::dim1_equation_solve::brent::brent_solve;
use numerical_algo_examples::dim1_equation_solve::find_root::{
    FindRootProblem, IterStopCondition, StopReason,
};
use numerical_algo_examples::dim1_func::polynomial::Polynomial;
use numerical_algo_examples::dim1_func::Dim1Fn;
use numerical_algo_examples::float_traits::{Abs, FloatConst, MaxMin, Scalar};

/// Double-precision scalars.
#[derive(Clone, Copy, Debug, PartialEq, PartialOrd)]
struct Fl(f64);

impl FloatConst for Fl {
    const EPSILON: Self = Fl(f64::EPSILON);
    const ZERO: Self = Fl(0.0);
    const ONE: Self = Fl(1.0);
}

impl Scalar for Fl {
    fn add_spec(self, rhs: Self) -> Self {
        Fl(self.0 + rhs.0)
    }
    fn sub_spec(self, rhs: Self) -> Self {
        Fl(self.0 - rhs.0)
    }
    fn mul_spec(self, rhs: Self) -> Self {
        Fl(self.0 * rhs.0)
    }
    fn div_spec(self, rhs: Self) -> Self {
        Fl(self.0 / rhs.0)
    }
    fn neg_spec(self) -> Self {
        Fl(-self.0)
    }
    fn lt_spec(self, rhs: Self) -> bool {
        self.0 < rhs.0
    }
    fn le_spec(self, rhs: Self) -> bool {
        self.0 <= rhs.0
    }
    fn eq_spec(self, rhs: Self) -> bool {
        self.0 == rhs.0
    }
    fn add(self, rhs: Self) -> Self {
        Fl(self.0 + rhs.0)
    }
    fn sub(self, rhs: Self) -> Self {
        Fl(self.0 - rhs.0)
    }
    fn mul(self, rhs: Self) -> Self {
        Fl(self.0 * rhs.0)
    }
    fn div(self, rhs: Self) -> Self {
        Fl(self.0 / rhs.0)
    }
    fn neg(self) -> Self {
        Fl(-self.0)
    }
    fn lt(self, rhs: Self) -> bool {
        self.0 < rhs.0
    }
    fn le(self, rhs: Self) -> bool {
        self.0 <= rhs.0
    }
    fn eq(self, rhs: Self) -> bool {
        self.0 == rhs.0
    }
}

impl Abs for Fl {}

impl MaxMin for Fl {}

fn poly(leading: f64, coes: &[f64]) -> Polynomial<Fl> {
    let coes: Vec<Fl> = coes.iter().map(|x| Fl(*x)).collect();
    Polynomial::new(Fl(leading)).with_coefficients(&coes)
}

#[test]
fn bisection_test_meet_tolorency_x() {
    let problem = FindRootProblem::new(poly(1.0, &[1.0]), Fl(-2.0)..Fl(3.0));
    let stop_cond = IterStopCondition::new().with_x_tolorency(Fl(1e-6));
    let result = bisection_solve(&problem, &stop_cond);
    assert!(
        result.root().0.abs_diff_eq(&-1.0, 1e-6),
        "root = {}",
        result.root().0
    );
    assert!(result.stop_reason() == StopReason::TolorencyX);
    println!("iter count = {}", result.iter_count());
}

#[test]
fn test_meet_tolorency_y() {
    let f = poly(1.0, &[1.0]);
    let problem = FindRootProblem::new(f.clone(), Fl(-2.0)..Fl(3.0));
    let stop_cond = IterStopCondition::new().with_y_tolorency(Fl(1e-6));
    let result = bisection_solve(&problem, &stop_cond);
    assert!(f.eval(result.root()).0.abs_diff_eq(&0.0, 1e-6));
    assert!(result.stop_reason() == StopReason::TolorencyY);
    println!("iter count = {}", result.iter_count());
}

#[test]
fn test_meet_iter_count_limit() {
    let f = poly(1.0, &[1.0]);
    let problem = FindRootProblem::new(f, Fl(-2.0)..Fl(3.0));
    let stop_cond = IterStopCondition::new().with_iter_count_limit(10);
    let result = bisection_solve(&problem, &stop_cond);
    assert!(result.stop_reason() == StopReason::IterCountLimit);
    assert!(result.iter_count() == 10);
    assert!(result.root().0.abs_diff_ne(&-1.0, 1e-6));
}

#[test]
fn test_large_abs_root() {
    let f = poly(-1e-4, &[1.0]);
    let problem = FindRootProblem::new(f, Fl(9000.0)..Fl(20000.0));
    let stop_cond = IterStopCondition::new().with_x_tolorency(Fl(1e-13));
    let result = bisection_solve(&problem, &stop_cond);
    println!("iter count = {}", result.iter_count());
    println!("root = {}", result.root().0);
    assert!(result.stop_reason() == StopReason::TolorencyX);
    assert!(result.root().0.relative_eq(&10000.0, 1e-16, 1e-13));
}

#[test]
fn brent_test_meet_tolorency_x() {
    let coes = [Fl(2.0), Fl(-3.0)];
    let problem = FindRootProblem::new(
        Polynomial::default().with_coefficients(&coes),
        Fl(1.5)..Fl(300.0),
    );
    let stop_cond = IterStopCondition::new().with_y_tolorency(Fl(1e-14));
    let result = brent_solve(&problem, &stop_cond);
    println!("iter count = {}", result.iter_count());
    assert!(
        result.root().0.abs_diff_eq(&2.0, 2.0 * 1e-6)
            || problem.func_eval(result.root()).0 < f64::EPSILON,
        "root = {}",
        result.root().0
    );
}

#[test]
fn test2() {
    let coes = [Fl(-1.), Fl(1.), Fl(0.)];
    let problem = FindRootProblem::new(
        Polynomial::default().with_coefficients(&coes),
        Fl(0.0)..Fl(1.0),
    );
    let result = brent_solve(&problem, &IterStopCondition::new());
    println!("iter count = {}", result.iter_count());
    println!("root = {}", result.root().0);
    println!("f(root) = {}", problem.func_eval(result.root()).0);
    println!("reason = {:?}", result.stop_reason());
}

fn line() -> Polynomial<Fl> {
    poly(1.0, &[1.0])
}

/// x * x + x - 1, whose root in [0, 1] is the conjugate of the golden ratio.
fn golden() -> Polynomial<Fl> {
    poly(1.0, &[-1.0, 1.0])
}

fn unreachable_tolerances() -> IterStopCondition<Fl> {
    IterStopCondition::new().with_x_tolorency(Fl(0.0)).with_y_tolorency(Fl(0.0))
}

#[test]
fn bisection_counts_and_estimates_are_exact() {
    let problem = FindRootProblem::new(line(), Fl(-2.0)..Fl(3.0));

    let res = bisection_solve(&problem, &IterStopCondition::new().with_x_tolorency(Fl(1e-6)));
    assert_eq!(res.root(), Fl(-1.0000003576278687));
    assert_eq!(res.iter_count(), 22);
    assert_eq!(res.stop_reason(), StopReason::TolorencyX);

    let res = bisection_solve(&problem, &IterStopCondition::new().with_y_tolorency(Fl(1e-6)));
    assert_eq!(res.root(), Fl(-1.0000009536743164));
    assert_eq!(res.iter_count(), 19);
    assert_eq!(res.stop_reason(), StopReason::TolorencyY);

    let res = bisection_solve(&problem, &IterStopCondition::new().with_iter_count_limit(10));
    assert_eq!(res.root(), Fl(-0.9990234375));
    assert_eq!(res.iter_count(), 10);
    assert_eq!(res.stop_reason(), StopReason::IterCountLimit);
}

#[test]
fn bisection_of_a_large_root() {
    let problem = FindRootProblem::new(poly(-1e-4, &[1.0]), Fl(9000.0)..Fl(20000.0));
    let res = bisection_solve(&problem, &IterStopCondition::new().with_x_tolorency(Fl(1e-13)));
    assert_eq!(res.root(), Fl(9999.999999999716));
    assert_eq!(res.iter_count(), 43);
    assert_eq!(res.stop_reason(), StopReason::TolorencyX);
}

#[test]
fn bisection_halves_the_bracket_at_each_iteration() {
    // With no tolerance within reach, the estimate at the limit is the
    // midpoint evaluated last, so successive estimates are half a bracket
    // apart: 5/4, 5/8, 5/16, ...
    let problem = FindRootProblem::new(line(), Fl(-2.0)..Fl(3.0));
    let at = |limit: usize| {
        let res = bisection_solve(&problem, &unreachable_tolerances().with_iter_count_limit(limit));
        assert_eq!(res.iter_count(), limit);
        assert_eq!(res.stop_reason(), StopReason::IterCountLimit);
        res.root().0
    };
    assert_eq!(at(0), -2.0);
    assert_eq!(at(1), 0.5);
    assert_eq!(at(2), -0.75);
    assert_eq!(at(3), -1.375);
    let mut step = 5.0 / 4.0;
    for k in 1..30 {
        assert_eq!((at(k + 1) - at(k)).abs(), step, "after {k} iterations");
        step /= 2.0;
    }
}

#[test]
fn iteration_limit_alone_is_reached_exactly() {
    let problem = FindRootProblem::new(line(), Fl(-2.0)..Fl(3.0));
    for limit in [0usize, 1, 7, 25] {
        let stop = unreachable_tolerances().with_iter_count_limit(limit);
        let res = bisection_solve(&problem, &stop);
        assert_eq!(res.stop_reason(), StopReason::IterCountLimit);
        assert_eq!(res.iter_count(), limit);
        let res = brent_solve(&problem, &stop);
        assert_eq!(res.stop_reason(), StopReason::IterCountLimit);
        assert_eq!(res.iter_count(), limit);
    }
    let stop = unreachable_tolerances().with_iter_count_limit(25);
    assert_eq!(bisection_solve(&problem, &stop).root(), Fl(-0.9999999105930328));
    let stop = unreachable_tolerances().with_iter_count_limit(7);
    assert_eq!(brent_solve(&problem, &stop).root(), Fl(-1.015625));
}

#[test]
fn limit_zero_returns_the_first_estimate() {
    let problem = FindRootProblem::new(line(), Fl(-2.0)..Fl(3.0));
    let stop = IterStopCondition::new().with_iter_count_limit(0);
    assert_eq!(bisection_solve(&problem, &stop).root(), Fl(-2.0));
    assert_eq!(brent_solve(&problem, &stop).root(), Fl(0.5));
}

#[test]
fn brent_finds_the_golden_ratio_conjugate() {
    let problem = FindRootProblem::new(golden(), Fl(0.0)..Fl(1.0));
    let res = brent_solve(&problem, &IterStopCondition::new());
    assert!(res.root().0.abs_diff_eq(&0.618034, 1e-6), "root = {}", res.root().0);
    assert_eq!(res.root(), Fl(0.6180339887498948));
    assert_eq!(res.iter_count(), 7);
    assert_eq!(res.stop_reason(), StopReason::TolorencyY);
}

#[test]
fn brent_takes_no_more_iterations_than_bisection_on_smooth_functions() {
    let cases: Vec<(Polynomial<Fl>, f64, f64)> = vec![
        (golden(), 0.0, 1.0),
        (poly(1.0, &[-1.0, 1.0, 0.0]), 0.0, 1.0),
        (poly(1.0, &[2.0, -3.0]), 1.5, 300.0),
        (poly(-1e-4, &[1.0]), 9000.0, 20000.0),
        (poly(1.0, &[-2.0, 0.0]), 0.0, 2.0),
    ];
    for (f, lo, hi) in cases {
        for tol in [1e-3, 1e-6, 1e-9, 1e-12] {
            let problem = FindRootProblem::new(f.clone(), Fl(lo)..Fl(hi));
            let stop = IterStopCondition::new().with_x_tolorency(Fl(tol)).with_y_tolorency(Fl(0.0));
            let bisection = bisection_solve(&problem, &stop);
            let brent = brent_solve(&problem, &stop);
            assert_eq!(bisection.stop_reason(), StopReason::TolorencyX);
            assert_eq!(brent.stop_reason(), StopReason::TolorencyX);
            assert!(
                brent.iter_count() <= bisection.iter_count(),
                "on [{lo}, {hi}] at {tol}: {} against {}",
                brent.iter_count(),
                bisection.iter_count()
            );
        }
    }
}

#[test]
fn solving_again_gives_the_same_result() {
    let problem = FindRootProblem::new(golden(), Fl(0.0)..Fl(1.0));
    let stop = IterStopCondition::new().with_x_tolorency(Fl(1e-9));
    let first = bisection_solve(&problem, &stop);
    let second = bisection_solve(&problem, &stop);
    assert_eq!(first.root(), second.root());
    assert_eq!(first.iter_count(), second.iter_count());
    assert_eq!(first.stop_reason(), second.stop_reason());
    let first = brent_solve(&problem, &stop);
    let second = brent_solve(&problem, &stop);
    assert_eq!(first.root(), second.root());
    assert_eq!(first.iter_count(), second.iter_count());
    assert_eq!(first.stop_reason(), second.stop_reason());
}

#[test]
fn estimates_lie_in_the_interval() {
    let cases: Vec<(Polynomial<Fl>, f64, f64)> = vec![
        (line(), -2.0, 3.0),
        (golden(), 0.0, 1.0),
        (poly(1.0, &[2.0, -3.0]), 1.5, 300.0),
        (poly(-1e-4, &[1.0]), 9000.0, 20000.0),
    ];
    for (f, lo, hi) in cases {
        for limit in 0..60 {
            let problem = FindRootProblem::new(f.clone(), Fl(lo)..Fl(hi));
            let stop = IterStopCondition::new().with_iter_count_limit(limit);
            let r = bisection_solve(&problem, &stop).root().0;
            assert!(lo <= r && r <= hi, "bisection on [{lo}, {hi}]: {r}");
            let r = brent_solve(&problem, &stop).root().0;
            assert!(lo <= r && r <= hi, "brent on [{lo}, {hi}]: {r}");
        }
    }
}

#[test]
fn a_root_at_the_lower_end_keeps_that_end() {
    // x + 1 on [-1, 3]: the residual at the lower end is zero.
    let problem = FindRootProblem::new(line(), Fl(-1.0)..Fl(3.0));
    let stop = IterStopCondition::new().with_x_tolorency(Fl(1e-6));
    let res = bisection_solve(&problem, &stop);
    assert_eq!(res.stop_reason(), StopReason::TolorencyX);
    assert_eq!(res.root(), Fl(-0.9999990463256836));
    assert_eq!(res.iter_count(), 21);
    assert!(res.root().0 - -1.0 <= 1e-6);
    // Brent's secant step lands on the end itself.
    let res = brent_solve(&problem, &stop);
    assert_eq!(res.root(), Fl(-1.0));
    assert_eq!(res.iter_count(), 0);
    assert_eq!(res.stop_reason(), StopReason::TolorencyY);
}

#[test]
fn brent_on_a_line_stops_at_the_secant_step() {
    let problem = FindRootProblem::new(line(), Fl(-2.0)..Fl(3.0));
    let res = brent_solve(&problem, &IterStopCondition::new().with_x_tolorency(Fl(1e-6)));
    assert!(res.root().0.abs_diff_eq(&-1.0, 1e-6));
    assert_eq!(res.iter_count(), 0);
    assert_eq!(res.stop_reason(), StopReason::TolorencyY);
}

#[test]
fn brent_of_a_large_root() {
    let problem = FindRootProblem::new(poly(-1e-4, &[1.0]), Fl(9000.0)..Fl(20000.0));
    let res = brent_solve(&problem, &IterStopCondition::new().with_x_tolorency(Fl(1e-13)));
    assert!(res.root().0.relative_eq(&10000.0, 1e-16, 1e-13), "root = {}", res.root().0);
}

#[test]
fn a_bracket_without_a_sign_change_is_refused() {
    assert!(FindRootProblem::try_new(line(), Fl(1.0)..Fl(2.0)).is_none());
    assert!(FindRootProblem::try_new(line(), Fl(-3.0)..Fl(-2.0)).is_none());
    let problem = FindRootProblem::try_new(line(), Fl(-2.0)..Fl(3.0));
    assert!(problem.is_some());
    let problem = problem.unwrap();
    assert!(problem.is_valid());
    let range = problem.search_range();
    assert_eq!((range.start, range.end), (Fl(-2.0), Fl(3.0)));
    // A root at an end is a bracket too.
    assert!(FindRootProblem::try_new(line(), Fl(-1.0)..Fl(2.0)).is_some());
}

#[test]
fn stop_condition_defaults_and_setters() {
    let stop: IterStopCondition<Fl> = IterStopCondition::new();
    assert_eq!(stop.x_tolorency(), Fl(f64::EPSILON));
    assert_eq!(stop.y_tolorency(), Fl(f64::EPSILON));
    assert_eq!(stop.iter_count_limit(), None);
    let stop: IterStopCondition<Fl> = IterStopCondition::default();
    assert_eq!(stop.x_tolorency(), Fl(f64::EPSILON));
    assert_eq!(stop.y_tolorency(), Fl(f64::EPSILON));
    assert_eq!(stop.iter_count_limit(), None);
    let stop = stop.with_x_tolorency(Fl(0.5)).with_y_tolorency(Fl(0.25)).with_iter_count_limit(3);
    assert_eq!(stop.x_tolorency(), Fl(0.5));
    assert_eq!(stop.y_tolorency(), Fl(0.25));
    assert_eq!(stop.iter_count_limit(), Some(3));
}

#[test]
fn iteration_limit_comes_before_the_tolerances() {
    // At the first iteration every criterion holds; the limit is reported.
    let problem = FindRootProblem::new(line(), Fl(-2.0)..Fl(3.0));
    let stop = IterStopCondition::new()
        .with_x_tolorency(Fl(10.0))
        .with_y_tolorency(Fl(10.0))
        .with_iter_count_limit(0);
    assert_eq!(bisection_solve(&problem, &stop).stop_reason(), StopReason::IterCountLimit);
    assert_eq!(brent_solve(&problem, &stop).stop_reason(), StopReason::IterCountLimit);
    // Without the limit, the tolerance on x comes before that on y.
    let stop = IterStopCondition::new().with_x_tolorency(Fl(10.0)).with_y_tolorency(Fl(10.0));
    let res = bisection_solve(&problem, &stop);
    assert_eq!(res.stop_reason(), StopReason::TolorencyX);
    assert_eq!(res.root(), Fl(0.5));
    let res = brent_solve(&problem, &stop);
    assert_eq!(res.stop_reason(), StopReason::TolorencyX);
    assert_eq!(res.root(), Fl(0.5));
    // With the tolerance on x out of reach, that on y stops the solve.
    let stop = IterStopCondition::new().with_x_tolorency(Fl(0.0)).with_y_tolorency(Fl(10.0));
    assert_eq!(bisection_solve(&problem, &stop).stop_reason(), StopReason::TolorencyY);
    assert_eq!(brent_solve(&problem, &stop).stop_reason(), StopReason::TolorencyY);
}

#[test]
fn brent_may_take_an_interpolated_candidate_from_outside_the_interval() {
    // x^3 - 4 x^2 - x + 3 on [1, 9]: after one bisection the quadratic
    // through the three points meets zero left of the interval, at a point
    // whose residual is within a tolerance as loose as one half.
    let problem = FindRootProblem::new(poly(1.0, &[3.0, -1.0, -4.0]), Fl(1.0)..Fl(9.0));
    let stop = IterStopCondition::new().with_y_tolorency(Fl(0.5));
    let res = brent_solve(&problem, &stop);
    assert_eq!(res.stop_reason(), StopReason::TolorencyY);
    assert_eq!(res.iter_count(), 1);
    assert_eq!(res.root(), Fl(0.8671875));
    assert!(problem.func_eval(res.root()).0.abs() < 0.5);
    // Bisection never leaves it.
    let res = bisection_solve(&problem, &stop);
    assert!(1.0 <= res.root().0 && res.root().0 <= 9.0);
}
