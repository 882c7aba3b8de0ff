use numerical_algo_examples::dim1_equation_solve::brent::{
    choose_placement, sample, Placement, Point, RootState,
};
use numerical_algo_examples::dim1_equation_solve::find_root::FindRootProblem;
use numerical_algo_examples::dim1_equation_solve::interpolation::{
    inverse_quad_interpolation, regula_falsi,
};
use numerical_algo_examples::dim1_func::Dim1Fn;
use numerical_algo_examples::float_traits::{Abs, FloatConst, MaxMin, Scalar};

/// Double-precision scalars.
#[derive(Clone, Copy, Debug, PartialEq, PartialOrd)]
struct Fl(f64);

impl FloatConst for Fl {
    const EPSILON: Self = Fl(f64::EPSILON);
    const ZERO: Self = Fl(0.0);
    const ONE: Self = Fl(1.0);
}

impl Scalar for Fl {
    fn add_spec(self, rhs: Self) -> Self {
        Fl(self.0 + rhs.0)
    }
    fn sub_spec(self, rhs: Self) -> Self {
        Fl(self.0 - rhs.0)
    }
    fn mul_spec(self, rhs: Self) -> Self {
        Fl(self.0 * rhs.0)
    }
    fn div_spec(self, rhs: Self) -> Self {
        Fl(self.0 / rhs.0)
    }
    fn neg_spec(self) -> Self {
        Fl(-self.0)
    }
    fn lt_spec(self, rhs: Self) -> bool {
        self.0 < rhs.0
    }
    fn le_spec(self, rhs: Self) -> bool {
        self.0 <= rhs.0
    }
    fn eq_spec(self, rhs: Self) -> bool {
        self.0 == rhs.0
    }
    fn add(self, rhs: Self) -> Self {
        Fl(self.0 + rhs.0)
    }
    fn sub(self, rhs: Self) -> Self {
        Fl(self.0 - rhs.0)
    }
    fn mul(self, rhs: Self) -> Self {
        Fl(self.0 * rhs.0)
    }
    fn div(self, rhs: Self) -> Self {
        Fl(self.0 / rhs.0)
    }
    fn neg(self) -> Self {
        Fl(-self.0)
    }
    fn lt(self, rhs: Self) -> bool {
        self.0 < rhs.0
    }
    fn le(self, rhs: Self) -> bool {
        self.0 <= rhs.0
    }
    fn eq(self, rhs: Self) -> bool {
        self.0 == rhs.0
    }
}

impl Abs for Fl {}

impl MaxMin for Fl {}

fn pt(x: f64, y: f64) -> Point<Fl> {
    Point { x: Fl(x), y: Fl(y), y_abs: Fl(y.abs()) }
}

fn state(left: Point<Fl>, mid: Point<Fl>, right: Point<Fl>) -> RootState<Fl> {
    let dup = left.x == mid.x || right.x == mid.x;
    RootState { left, right, mid, dup }
}

fn xy(p: &Point<Fl>) -> (f64, f64, f64) {
    (p.x.0, p.y.0, p.y_abs.0)
}

fn assert_state(s: &RootState<Fl>, left: (f64, f64), mid: (f64, f64), right: (f64, f64), dup: bool) {
    assert_eq!(xy(&s.left), (left.0, left.1, left.1.abs()));
    assert_eq!(xy(&s.mid), (mid.0, mid.1, mid.1.abs()));
    assert_eq!(xy(&s.right), (right.0, right.1, right.1.abs()));
    assert_eq!(s.dup, dup);
}

/// The placement by nested cases: outside or inside the bracket, then the
/// sides of zero, then the side of mid.
fn placement_by_cases(
    outside: bool,
    right_of_mid: bool,
    mid_with_left: bool,
    candidate_with_left: bool,
) -> Option<Placement> {
    let candidate_against_mid = mid_with_left ^ candidate_with_left;
    if outside {
        if right_of_mid {
            if candidate_against_mid {
                return Some(Placement::BeyondRight);
            }
        } else if candidate_against_mid {
            return Some(Placement::BeyondLeft);
        }
        None
    } else if mid_with_left {
        if candidate_with_left {
            if right_of_mid {
                Some(Placement::MidAsLeft)
            } else {
                Some(Placement::AsLeft)
            }
        } else if right_of_mid {
            Some(Placement::AsRight)
        } else {
            None
        }
    } else if candidate_with_left {
        if !right_of_mid {
            Some(Placement::AsLeft)
        } else {
            None
        }
    } else if right_of_mid {
        Some(Placement::AsRight)
    } else {
        Some(Placement::MidAsRight)
    }
}

#[test]
fn placement_agrees_with_the_nested_cases_on_every_input() {
    for bits in 0..16u32 {
        let outside = bits & 1 != 0;
        let right_of_mid = bits & 2 != 0;
        let mid_with_left = bits & 4 != 0;
        let candidate_with_left = bits & 8 != 0;
        assert_eq!(
            choose_placement(outside, right_of_mid, mid_with_left, candidate_with_left),
            placement_by_cases(outside, right_of_mid, mid_with_left, candidate_with_left),
            "outside {outside}, right of mid {right_of_mid}, mid with left {mid_with_left}, \
             candidate with left {candidate_with_left}"
        );
    }
}

#[test]
fn insert_as_right() {
    let mut s = state(pt(0., -4.), pt(2., -1.), pt(10., 6.));
    assert!(s.insert(pt(4., 1.)));
    assert_state(&s, (0., -4.), (2., -1.), (4., 1.), false);
}

#[test]
fn insert_rejects_a_bracket_wider_than_half() {
    let mut s = state(pt(0., -4.), pt(2., -1.), pt(10., 6.));
    assert!(!s.insert(pt(6., 1.)));
    assert_state(&s, (0., -4.), (2., -1.), (10., 6.), false);
    // Exactly half is accepted.
    assert!(s.insert(pt(5., 1.)));
    assert_state(&s, (0., -4.), (2., -1.), (5., 1.), false);
}

#[test]
fn insert_rejects_a_residual_larger_than_the_one_that_leaves() {
    let mut s = state(pt(0., -4.), pt(2., -1.), pt(10., 6.));
    assert!(!s.insert(pt(4., 7.)));
    assert_state(&s, (0., -4.), (2., -1.), (10., 6.), false);
    // An equal residual is accepted.
    assert!(s.insert(pt(4., 6.)));
    assert_state(&s, (0., -4.), (2., -1.), (4., 6.), false);
}

#[test]
fn insert_mid_as_left() {
    let mut s = state(pt(0., -4.), pt(6., -1.), pt(10., 6.));
    assert!(s.insert(pt(8., -0.5)));
    assert_state(&s, (6., -1.), (8., -0.5), (10., 6.), false);
}

#[test]
fn insert_as_left() {
    let mut s = state(pt(0., -4.), pt(6., -1.), pt(10., 6.));
    assert!(s.insert(pt(5., -2.)));
    assert_state(&s, (5., -2.), (6., -1.), (10., 6.), false);
}

#[test]
fn insert_as_left_at_mid_sets_dup() {
    let mut s = state(pt(0., -4.), pt(6., -1.), pt(10., 6.));
    assert!(s.insert(pt(6., -1.)));
    assert_state(&s, (6., -1.), (6., -1.), (10., 6.), true);
}

#[test]
fn insert_mid_as_right() {
    let mut s = state(pt(0., -4.), pt(4., 2.), pt(10., 6.));
    assert!(s.insert(pt(3., 1.)));
    assert_state(&s, (0., -4.), (3., 1.), (4., 2.), false);
}

#[test]
fn insert_beyond_right() {
    let mut s = state(pt(0., -4.), pt(9., -1.), pt(10., 6.));
    assert!(s.insert(pt(11., 3.)));
    assert_state(&s, (9., -1.), (10., 6.), (11., 3.), false);
}

#[test]
fn insert_beyond_left() {
    let mut s = state(pt(0., -4.), pt(1., 2.), pt(10., 6.));
    assert!(s.insert(pt(-1., -2.)));
    assert_state(&s, (-1., -2.), (0., -4.), (1., 2.), false);
}

#[test]
fn insert_rejects_where_no_placement_keeps_the_root() {
    // Inside, on the side of left, right of a mid that is on the other side.
    let mut s = state(pt(0., -4.), pt(4., 2.), pt(10., 6.));
    assert!(!s.insert(pt(6., -1.)));
    assert_state(&s, (0., -4.), (4., 2.), (10., 6.), false);
    // Outside, on the same side of zero as mid.
    let mut s = state(pt(0., -4.), pt(9., -1.), pt(10., 6.));
    assert!(!s.insert(pt(11., -3.)));
    assert_state(&s, (0., -4.), (9., -1.), (10., 6.), false);
}

#[test]
fn insert_keeps_a_stale_dup_flag_when_it_rejects() {
    let mut s = state(pt(0., -4.), pt(4., 2.), pt(10., 6.));
    s.dup = true;
    assert!(!s.insert(pt(6., -1.)));
    assert!(s.dup);
}

#[test]
fn regula_falsi_meets_the_line_at_zero() {
    // The line through (1, -2) and (4, 4) meets zero at 2.
    assert_eq!(regula_falsi((Fl(1.), Fl(4.)), (Fl(-2.), Fl(4.))), Fl(2.));
    assert_eq!(regula_falsi((Fl(-2.), Fl(3.)), (Fl(-1.), Fl(4.))), Fl(-1.));
}

#[test]
fn inverse_quad_interpolation_is_exact_on_a_quadratic_in_y() {
    // x = y * y + 2 * y + 3 through y = -1, 1, 2: x = 2, 6, 11; at y = 0, x = 3.
    let x = inverse_quad_interpolation((Fl(2.), Fl(6.), Fl(11.)), (Fl(-1.), Fl(1.), Fl(2.)));
    assert!((x.0 - 3.0).abs() < 1e-12, "x = {}", x.0);
    // x = 2 * y + 1 through y = -2, 1, 4: a line is a quadratic too.
    let x = inverse_quad_interpolation((Fl(-3.), Fl(3.), Fl(9.)), (Fl(-2.), Fl(1.), Fl(4.)));
    assert!((x.0 - 1.0).abs() < 1e-12, "x = {}", x.0);
}

struct Cube;

impl Dim1Fn<Fl> for Cube {
    fn eval_spec(&self, x: Fl) -> Fl {
        Fl(x.0 * x.0 * x.0)
    }
    fn eval(&self, x: Fl) -> Fl {
        Fl(x.0 * x.0 * x.0)
    }
}

#[test]
fn sample_holds_the_residual_and_its_magnitude() {
    let problem = FindRootProblem::new(Cube, Fl(-2.)..Fl(1.));
    let p = sample(&problem, Fl(-2.));
    assert_eq!(xy(&p), (-2., -8., 8.));
    let p = sample(&problem, Fl(0.5));
    assert_eq!(xy(&p), (0.5, 0.125, 0.125));
}

#[test]
fn advance_bisects_where_nothing_else_is_taken() {
    // Mid coincides with the left end, so there is no interpolation; the
    // secant step from (-2, -8) and (1, 1) lands at 2/3, which leaves the
    // bracket wider than half, and is rejected.
    let problem = FindRootProblem::new(Cube, Fl(-2.)..Fl(1.));
    let mut s = state(pt(-2., -8.), pt(-2., -8.), pt(1., 1.));
    assert_eq!(s.advance(&problem, Fl(0.)), None);
    assert_state(&s, (-0.5, -0.125), (0.25, 0.015625), (1., 1.), false);
}

#[test]
fn advance_returns_a_candidate_within_the_tolerance() {
    let problem = FindRootProblem::new(Cube, Fl(-2.)..Fl(1.));
    let mut s = state(pt(-2., -8.), pt(-2., -8.), pt(1., 1.));
    // The secant candidate 2/3 has the residual 8/27, below 0.3.
    let found = s.advance(&problem, Fl(0.3));
    assert_eq!(found, Some(Fl((1.0 * -8.0 - -2.0 * 1.0) / (-8.0 - 1.0))));
    assert_state(&s, (-2., -8.), (-2., -8.), (1., 1.), true);
}
