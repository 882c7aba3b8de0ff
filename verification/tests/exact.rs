use numerical_algo_examples::dim1_equation_solve::bisection::bisection_solve;
use numerical_algo_examples::dim1_equation_solve::brent::{brent_solve, sample, RootState};
use numerical_algo_examples::dim1_equation_solve::find_root::{
    FindRootProblem, IterStopCondition, StopReason,
};
use numerical_algo_examples::dim1_equation_solve::interpolation::{
    inverse_quad_interpolation, regula_falsi,
};
use numerical_algo_examples::dim1_func::polynomial::Polynomial;
use numerical_algo_examples::dim1_func::Dim1Fn;
use numerical_algo_examples::float_traits::{Abs, FloatConst, MaxMin, Scalar};
use numerical_algo_examples::matrix::{FullMatrix, MatrixMajor};

/// A rational number in lowest terms with a positive denominator: a scalar
/// whose arithmetic is exact. A denominator of zero marks the result of a
/// division by zero, which compares with nothing.
#[derive(Clone, Copy, Debug, PartialEq)]
struct Q {
    num: i128,
    den: i128,
}

fn gcd(a: i128, b: i128) -> i128 {
    if b == 0 {
        a.abs()
    } else {
        gcd(b, a % b)
    }
}

fn q(num: i128, den: i128) -> Q {
    if den == 0 {
        return Q { num: 0, den: 0 };
    }
    let g = gcd(num, den);
    let sign = if den < 0 { -1 } else { 1 };
    Q { num: sign * num / g, den: sign * den / g }
}

fn mul(a: i128, b: i128) -> i128 {
    a.checked_mul(b).expect("the rational is too large for the test")
}

fn whole(n: i128) -> Q {
    q(n, 1)
}

impl Q {
    fn plus(self, rhs: Q) -> Q {
        if self.den == 0 || rhs.den == 0 {
            return q(0, 0);
        }
        let g = gcd(self.den, rhs.den);
        let (left, right) = (rhs.den / g, self.den / g);
        q(mul(self.num, left) + mul(rhs.num, right), mul(self.den, left))
    }

    fn times(self, rhs: Q) -> Q {
        if self.den == 0 || rhs.den == 0 {
            return q(0, 0);
        }
        let (a, b) = (q(self.num, rhs.den), q(rhs.num, self.den));
        Q { num: mul(a.num, b.num), den: mul(a.den, b.den) }
    }

    fn minus(self) -> Q {
        Q { num: -self.num, den: self.den }
    }

    fn inverse(self) -> Q {
        q(self.den, self.num)
    }

    fn below(self, rhs: Q) -> bool {
        self.den != 0 && rhs.den != 0 && mul(self.num, rhs.den) < mul(rhs.num, self.den)
    }

    fn same(self, rhs: Q) -> bool {
        self.den != 0 && rhs.den != 0 && self.num == rhs.num && self.den == rhs.den
    }
}

impl FloatConst for Q {
    const EPSILON: Self = Q { num: 1, den: 1 << 52 };
    const ZERO: Self = Q { num: 0, den: 1 };
    const ONE: Self = Q { num: 1, den: 1 };
}

impl Scalar for Q {
    fn add_spec(self, rhs: Self) -> Self {
        self.plus(rhs)
    }
    fn sub_spec(self, rhs: Self) -> Self {
        self.plus(rhs.minus())
    }
    fn mul_spec(self, rhs: Self) -> Self {
        self.times(rhs)
    }
    fn div_spec(self, rhs: Self) -> Self {
        self.times(rhs.inverse())
    }
    fn neg_spec(self) -> Self {
        self.minus()
    }
    fn lt_spec(self, rhs: Self) -> bool {
        self.below(rhs)
    }
    fn le_spec(self, rhs: Self) -> bool {
        self.below(rhs) || self.same(rhs)
    }
    fn eq_spec(self, rhs: Self) -> bool {
        self.same(rhs)
    }
    fn add(self, rhs: Self) -> Self {
        self.plus(rhs)
    }
    fn sub(self, rhs: Self) -> Self {
        self.plus(rhs.minus())
    }
    fn mul(self, rhs: Self) -> Self {
        self.times(rhs)
    }
    fn div(self, rhs: Self) -> Self {
        self.times(rhs.inverse())
    }
    fn neg(self) -> Self {
        self.minus()
    }
    fn lt(self, rhs: Self) -> bool {
        self.below(rhs)
    }
    fn le(self, rhs: Self) -> bool {
        self.below(rhs) || self.same(rhs)
    }
    fn eq(self, rhs: Self) -> bool {
        self.same(rhs)
    }
}

impl Abs for Q {}

impl MaxMin for Q {}

fn ints(xs: &[i128]) -> Vec<Q> {
    xs.iter().map(|x| whole(*x)).collect()
}

fn out_of_reach() -> IterStopCondition<Q> {
    IterStopCondition::new().with_x_tolorency(whole(0)).with_y_tolorency(whole(0))
}

/// x * x - 2 on [0, 2]: no rational is a root, so no iteration ends at one.
fn square_less_two() -> Polynomial<Q> {
    Polynomial::new(whole(1)).with_coefficients(&ints(&[-2, 0]))
}

#[test]
fn derived_operations_on_rationals() {
    assert_eq!(q(-3, 4).abs(), q(3, 4));
    assert_eq!(q(3, 4).abs(), q(3, 4));
    assert_eq!(whole(0).abs(), whole(0));
    assert_eq!(q(1, 2).max(q(1, 3)), q(1, 2));
    assert_eq!(q(1, 2).min(q(1, 3)), q(1, 3));
    assert_eq!(q(-1, 2).max(q(-1, 3)), q(-1, 3));
    assert_eq!(q(-1, 2).min(q(-1, 3)), q(-1, 2));
    // Where neither is larger, the first is returned.
    assert_eq!(q(2, 4).max(q(1, 2)), q(1, 2));
}

#[test]
fn exact_bisection_halves_the_bracket() {
    let problem = FindRootProblem::new(square_less_two(), whole(0)..whole(2));
    let mut width = q(2, 1);
    let mut before = whole(0);
    for k in 1..=28usize {
        let res = bisection_solve(&problem, &out_of_reach().with_iter_count_limit(k));
        assert_eq!(res.iter_count(), k);
        assert_eq!(res.stop_reason(), StopReason::IterCountLimit);
        // The estimate is the midpoint evaluated last: half a bracket from the
        // one before, but for the first, which is half the interval from its
        // lower end.
        width = width.times(q(1, 2));
        let step = res.root().plus(before.minus()).abs();
        assert_eq!(step, width, "after {k} iterations");
        before = res.root();
        assert!(whole(0).le(res.root()) && res.root().le(whole(2)));
    }
}

#[test]
fn exact_bisection_stops_once_halving_reaches_the_tolerance() {
    // Width 2, tolerance 1/1000: 2 <= 2 * (1/1000) * 2^k first holds at k = 10.
    let problem = FindRootProblem::new(square_less_two(), whole(0)..whole(2));
    let stop = IterStopCondition::new().with_x_tolorency(q(1, 1000)).with_y_tolorency(whole(0));
    let res = bisection_solve(&problem, &stop);
    assert_eq!(res.stop_reason(), StopReason::TolorencyX);
    assert!(res.iter_count() <= 10);
    // The lower end is about 1.41 by then, and scales the tolerance, but not
    // by enough to end an iteration sooner: 2 / 2^9 is above 0.002 * 1.41.
    assert_eq!(res.iter_count(), 10);
    // The estimate is within the tolerance of the root: its square is near 2.
    let sq = res.root().times(res.root());
    assert!(sq.plus(whole(-2)).abs().lt(q(1, 100)));
}

#[test]
fn exact_brent_keeps_its_invariants() {
    let problem = FindRootProblem::new(square_less_two(), whole(0)..whole(2));
    let left = sample(&problem, whole(0));
    let right = sample(&problem, whole(2));
    let mid = sample(&problem, whole(1));
    let mut state = RootState { left, right, mid, dup: false };
    for _ in 0..6 {
        let width = state.right.x.sub(state.left.x);
        let found = state.advance(&problem, whole(0));
        assert_eq!(found, None);
        // In order, with a root between the ends, and at most half as wide.
        assert!(state.left.x.le(state.mid.x) && state.mid.x.le(state.right.x));
        assert!(state.left.y.mul(state.right.y).le(whole(0)));
        let halved = state.right.x.sub(state.left.x).mul(whole(2));
        assert!(halved.le(width));
        // Each tracked point is a point of the graph.
        for p in [state.left, state.mid, state.right] {
            assert_eq!(p.y, problem.func_eval(p.x));
            assert_eq!(p.y_abs, p.y.abs());
        }
        assert_eq!(state.dup, state.left.x == state.mid.x || state.right.x == state.mid.x);
    }
}

#[test]
fn exact_brent_is_no_slower_than_exact_bisection() {
    let problem = FindRootProblem::new(square_less_two(), whole(0)..whole(2));
    for (tol, halvings, steps) in [(q(1, 10), 3, 3), (q(1, 100), 7, 5)] {
        let stop = IterStopCondition::new().with_x_tolorency(tol).with_y_tolorency(whole(0));
        let bisection = bisection_solve(&problem, &stop);
        let brent = brent_solve(&problem, &stop);
        assert_eq!(bisection.stop_reason(), StopReason::TolorencyX);
        assert_eq!(brent.stop_reason(), StopReason::TolorencyX);
        assert_eq!(bisection.iter_count(), halvings);
        assert_eq!(brent.iter_count(), steps);
        assert!(brent.iter_count() <= bisection.iter_count());
        assert!(whole(0).le(brent.root()) && brent.root().le(whole(2)));
    }
    let stop = IterStopCondition::new().with_x_tolorency(q(1, 10)).with_y_tolorency(whole(0));
    assert_eq!(bisection_solve(&problem, &stop).root(), q(11, 8));
    assert_eq!(brent_solve(&problem, &stop).root(), q(7, 5));
}

#[test]
fn exact_secant_lies_between_the_points() {
    // Through (1, -3) and (5, 9): zero at 2.
    assert_eq!(regula_falsi((whole(1), whole(5)), (whole(-3), whole(9))), whole(2));
    // Through (0, -1) and (1, 2): zero at 1/3.
    assert_eq!(regula_falsi((whole(0), whole(1)), (whole(-1), whole(2))), q(1, 3));
}

#[test]
fn exact_interpolation_is_the_quadratic_through_the_points() {
    // x = y * y + 2 * y + 3 through y = -1, 1, 2 gives 3 at y = 0.
    let x = inverse_quad_interpolation((whole(2), whole(6), whole(11)), (whole(-1), whole(1), whole(2)));
    assert_eq!(x, whole(3));
    // x = y * y / 2 - y / 3 + 1 / 7 through y = -2, 3, 5.
    let g = |y: i128| q(y * y, 2).plus(q(-y, 3)).plus(q(1, 7));
    let x = inverse_quad_interpolation((g(-2), g(3), g(5)), (whole(-2), whole(3), whole(5)));
    assert_eq!(x, q(1, 7));
}

#[test]
fn exact_nested_multiplication_is_the_expanded_polynomial() {
    // 1/2 + (x - 1) * (3 + (x + 2) * (-1/3 + (x - 1/2) * 5))
    let coes = [q(1, 2), whole(3), q(-1, 3)];
    let bps = [whole(1), whole(-2), q(1, 2)];
    let lead = whole(5);
    let p = Polynomial::new(lead).with_coefficients(&coes).with_base_points(&bps);
    for x in [whole(0), whole(1), q(-7, 3), q(22, 7)] {
        let mut expanded = whole(0);
        let mut product = whole(1);
        for i in 0..3 {
            expanded = expanded.plus(coes[i].times(product));
            product = product.times(x.sub(bps[i]));
        }
        expanded = expanded.plus(lead.times(product));
        assert_eq!(p.nest_mul(x), expanded);
        assert_eq!(p.eval(x), expanded);
    }
}

fn solves(a: &[Q], n: usize, x: &[Q], b: &[Q]) -> bool {
    (0..n).all(|i| {
        let mut sum = whole(0);
        for j in 0..n {
            sum = sum.plus(a[i * n + j].times(x[j]));
        }
        sum == b[i]
    })
}

#[test]
fn exact_elimination_solves_the_system() {
    let a = ints(&[2, 1, -1, -3, -1, 2, -2, 1, 2]);
    let b = ints(&[8, -11, -3]);
    let m = FullMatrix::new(MatrixMajor::Row, 3, a.clone());
    let x = m.gaussian_elimination(&b);
    assert_eq!(x, ints(&[2, 3, -1]));
    assert!(solves(&a, 3, &x, &b));

    let a = vec![q(1, 2), q(1, 3), q(-2, 5), q(3, 7), whole(4), q(1, 9), q(-5, 3), q(2, 11), whole(1)];
    let b = vec![q(3, 4), q(-1, 6), whole(2)];
    let m = FullMatrix::new(MatrixMajor::Row, 3, a.clone());
    let x = m.gaussian_elimination(&b);
    assert!(solves(&a, 3, &x, &b));
}

#[test]
fn exact_hilbert_systems_have_the_solution_of_ones() {
    for n in 1..=6usize {
        let h: FullMatrix<Q> = FullMatrix::hilbert(n);
        for i in 0..n {
            for j in 0..n {
                assert_eq!(h.get(i, j), q(1, (i + j + 1) as i128));
            }
        }
        let ones = vec![whole(1); n];
        let sums = h.mul_vec(&ones);
        let x = h.gaussian_elimination(&sums);
        assert_eq!(x, ones, "order {n}");
    }
}

#[test]
fn a_zero_pivot_gives_no_solution() {
    // The first pivot is zero: the division marks every unknown as undefined.
    let m = FullMatrix::new(MatrixMajor::Row, 2, ints(&[0, 1, 1, 0]));
    let x = m.gaussian_elimination(&ints(&[1, 1]));
    assert!(x.iter().all(|v| v.den == 0));
}
