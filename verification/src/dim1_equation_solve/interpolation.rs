//! The candidates of Brent's method: inverse quadratic interpolation and the
//! secant step.

use crate::dim1_equation_solve::ring::lemma_add_mul;
use crate::dim1_equation_solve::ring::lemma_assoc;
use crate::dim1_equation_solve::ring::lemma_cancel;
use crate::dim1_equation_solve::ring::lemma_combine;
use crate::dim1_equation_solve::ring::lemma_cycle;
use crate::dim1_equation_solve::ring::lemma_distribute_four;
use crate::dim1_equation_solve::ring::lemma_div_mul;
use crate::dim1_equation_solve::ring::lemma_expand_pair;
use crate::dim1_equation_solve::ring::lemma_flip_pair;
use crate::dim1_equation_solve::ring::lemma_flip_two;
use crate::dim1_equation_solve::ring::lemma_mul_sub;
use crate::dim1_equation_solve::ring::lemma_nonzero_factor;
use crate::dim1_equation_solve::ring::lemma_nonzero_product;
use crate::dim1_equation_solve::ring::lemma_reverse;
use crate::dim1_equation_solve::ring::lemma_rotate;
use crate::dim1_equation_solve::ring::lemma_sub_mul;
use crate::dim1_equation_solve::ring::lemma_swap_inner;
use crate::dim1_equation_solve::ring::lemma_swap_right;
use crate::dim1_equation_solve::ring::lemma_turn_first;
use crate::dim1_equation_solve::ring::lemma_turn_second;
use crate::exact::exact_arithmetic;
use crate::float_traits::Scalar;
use vstd::prelude::*;

verus! {

/// Whether no two of the three residuals compare equal.
pub open spec fn distinct_residuals<T: Scalar>(ys: (T, T, T)) -> bool {
    !ys.0.eq_spec(ys.1) && !ys.1.eq_spec(ys.2) && !ys.0.eq_spec(ys.2)
}

/// The abscissa at which the quadratic in `y` through the three points
/// `(xs.0, ys.0)`, `(xs.1, ys.1)`, `(xs.2, ys.2)` meets `y = 0`, in the form
/// in which it is computed.
pub open spec fn inverse_quad_spec<T: Scalar>(xs: (T, T, T), ys: (T, T, T)) -> T {
    let q = ys.0.div_spec(ys.1);
    let r = ys.2.div_spec(ys.1);
    let s = ys.2.div_spec(ys.0);
    let numerator = r.mul_spec(r.sub_spec(q)).mul_spec(xs.2.sub_spec(xs.1)).add_spec(
        T::ONE.sub_spec(r).mul_spec(s).mul_spec(xs.2.sub_spec(xs.0)),
    );
    let denominator = q.sub_spec(T::ONE).mul_spec(r.sub_spec(T::ONE)).mul_spec(
        s.sub_spec(T::ONE),
    );
    xs.2.sub_spec(numerator.div_spec(denominator))
}

/// The abscissa at which the line through `(xs.0, ys.0)` and `(xs.1, ys.1)`
/// meets `y = 0`, in the form in which it is computed.
pub open spec fn regula_falsi_spec<T: Scalar>(xs: (T, T), ys: (T, T)) -> T {
    xs.1.mul_spec(ys.0).sub_spec(xs.0.mul_spec(ys.1)).div_spec(ys.0.sub_spec(ys.1))
}

/// Inverse quadratic interpolation through three points with distinct
/// residuals.
pub fn inverse_quad_interpolation<T: Scalar>(xs: (T, T, T), ys: (T, T, T)) -> (x: T)
    requires
        distinct_residuals(ys),
    ensures
        x == inverse_quad_spec(xs, ys),
{
    let q = ys.0.div(ys.1);
    let r = ys.2.div(ys.1);
    let s = ys.2.div(ys.0);
    let numerator = r.mul(r.sub(q)).mul(xs.2.sub(xs.1)).add(
        T::ONE.sub(r).mul(s).mul(xs.2.sub(xs.0)),
    );
    let denominator = q.sub(T::ONE).mul(r.sub(T::ONE)).mul(s.sub(T::ONE));
    xs.2.sub(numerator.div(denominator))
}

/// The secant step through two points with distinct residuals.
pub fn regula_falsi<T: Scalar>(xs: (T, T), ys: (T, T)) -> (x: T)
    requires
        !ys.0.eq_spec(ys.1),
    ensures
        x == regula_falsi_spec(xs, ys),
{
    xs.1.mul(ys.0).sub(xs.0.mul(ys.1)).div(ys.0.sub(ys.1))
}

/// Under exact arithmetic, the secant step between two points whose
/// residuals differ and have a product not above zero lies between the two
/// points, and the line through them has the residual zero there.
pub proof fn lemma_secant_between<T: Scalar>(val: spec_fn(T) -> real, xs: (T, T), ys: (T, T))
    requires
        exact_arithmetic(val),
        !ys.0.eq_spec(ys.1),
        ys.0.mul_spec(ys.1).le_spec(T::ZERO),
        val(xs.0) <= val(xs.1),
    ensures
        val(xs.0) <= val(regula_falsi_spec(xs, ys)) <= val(xs.1),
        (val(regula_falsi_spec(xs, ys)) - val(xs.0)) * (val(ys.1) - val(ys.0)) == -val(ys.0) * (
        val(xs.1) - val(xs.0)),
{
    let a = val(xs.0);
    let b = val(xs.1);
    let u = val(ys.0);
    let v = val(ys.1);
    let d = u - v;
    let x = val(regula_falsi_spec(xs, ys));
    assert(x == (b * u - a * v) / d);
    assert(x * d == b * u - a * v) by (nonlinear_arith)
        requires
            d != 0real,
            x == (b * u - a * v) / d,
    ;
    assert((x - a) * d == (b - a) * u) by (nonlinear_arith)
        requires
            x * d == b * u - a * v,
            d == u - v,
    ;
    assert((b - x) * d == -((b - a) * v)) by (nonlinear_arith)
        requires
            x * d == b * u - a * v,
            d == u - v,
    ;
    assert(d > 0real ==> u >= 0real && v <= 0real) by (nonlinear_arith)
        requires
            u * v <= 0real,
            d == u - v,
    ;
    assert(d < 0real ==> u <= 0real && v >= 0real) by (nonlinear_arith)
        requires
            u * v <= 0real,
            d == u - v,
    ;
    assert(a <= x) by (nonlinear_arith)
        requires
            (x - a) * d == (b - a) * u,
            d != 0real,
            a <= b,
            d > 0real ==> u >= 0real,
            d < 0real ==> u <= 0real,
    ;
    assert(x <= b) by (nonlinear_arith)
        requires
            (b - x) * d == -((b - a) * v),
            d != 0real,
            a <= b,
            d > 0real ==> v <= 0real,
            d < 0real ==> v >= 0real,
    ;
    assert((x - a) * (v - u) == -u * (b - a)) by (nonlinear_arith)
        requires
            (x - a) * d == (b - a) * u,
            d == u - v,
    ;
}

/// The value at `y = 0` of the quadratic in `y` that passes through the
/// three points `(xs.0, ys.0)`, `(xs.1, ys.1)`, `(xs.2, ys.2)`, in Lagrange's
/// form.
pub open spec fn lagrange_at_zero(xs: (real, real, real), ys: (real, real, real)) -> real {
    (xs.0 * (ys.1 * ys.2)) / ((ys.0 - ys.1) * (ys.0 - ys.2)) + (xs.1 * (ys.0 * ys.2)) / ((ys.1
        - ys.0) * (ys.1 - ys.2)) + (xs.2 * (ys.0 * ys.1)) / ((ys.2 - ys.0) * (ys.2 - ys.1))
}

/// The product of the differences of three residuals is the sum of three
/// products, one for each pair of them.
proof fn lemma_span_as_sum(u: real, v: real, w: real)
    ensures
        ((u - v) * (w - v)) * (w - u) == (w * (w - u)) * u + ((v - w) * w) * v + (u * v) * (u - v),
{
    let c = w - u;
    lemma_expand_pair(u, v, w, v);
    lemma_distribute_four(u * w, u * v, v * w, v * v, c);
    assert(((u - v) * (w - v)) * c == (u * w) * c - (u * v) * c - (v * w) * c + (v * v) * c);
    lemma_rotate(u, w, c);
    lemma_mul_sub(u * v, w, u);
    lemma_mul_sub(v * w, w, u);
    lemma_mul_sub(v * v, w, u);
    lemma_sub_mul(v, w, w);
    lemma_sub_mul(v * w, w * w, v);
    assert(((v - w) * w) * v == (v * w) * v - (w * w) * v);
    lemma_mul_sub(u * v, u, v);
    lemma_cycle(v, w, u);
    lemma_rotate(v, w, w);
    lemma_swap_right(v, v, w);
    lemma_cycle(v, v, u);
}

/// The scaled denominator of the interpolation formula.
proof fn lemma_scaled_denominator(q: real, r: real, s: real, u: real, v: real, w: real)
    requires
        q * v == u,
        r * v == w,
        s * u == w,
    ensures
        (((q - 1real) * (r - 1real)) * (s - 1real)) * ((v * v) * u) == ((u - v) * (w - v)) * (w
            - u),
{
    let f = q - 1real;
    let g = r - 1real;
    let h = s - 1real;
    lemma_sub_mul(q, 1real, v);
    lemma_sub_mul(r, 1real, v);
    lemma_sub_mul(s, 1real, u);
    assert(f * v == u - v);
    assert(g * v == w - v);
    assert(h * u == w - u);
    lemma_swap_inner(f * g, h, v * v, u);
    lemma_swap_inner(f, g, v, v);
    assert((f * g) * (v * v) == (u - v) * (w - v));
}

/// The scaled numerator of the interpolation formula.
proof fn lemma_scaled_numerator(
    q: real,
    r: real,
    s: real,
    u: real,
    v: real,
    w: real,
    left: real,
    right: real,
)
    requires
        q * v == u,
        r * v == w,
        s * u == w,
    ensures
        ((r * (r - q)) * left + ((1real - r) * s) * right) * ((v * v) * u) == ((w * (w - u)) * u)
            * left + (((v - w) * w) * v) * right,
{
    let k = (v * v) * u;
    let x1 = r * (r - q);
    let x2 = (1real - r) * s;
    lemma_add_mul(x1 * left, x2 * right, k);
    lemma_swap_right(x1, left, k);
    lemma_swap_right(x2, right, k);
    lemma_assoc(x1, v * v, u);
    lemma_swap_inner(r, r - q, v, v);
    lemma_sub_mul(r, q, v);
    assert((r - q) * v == w - u);
    assert(x1 * (v * v) == w * (w - u));
    assert(x1 * k == (w * (w - u)) * u);
    lemma_swap_right(v, v, u);
    assert(k == (v * u) * v);
    lemma_assoc(x2, v * u, v);
    lemma_swap_inner(1real - r, s, v, u);
    lemma_sub_mul(1real, r, v);
    assert((1real - r) * v == v - w);
    assert(x2 * (v * u) == (v - w) * w);
    assert(x2 * k == ((v - w) * w) * v);
}

/// Each term of Lagrange's form, times the product of the differences.
proof fn lemma_lagrange_terms(a: real, b: real, c: real, u: real, v: real, w: real)
    requires
        u != v,
        v != w,
        u != w,
    ensures
        ({
            let span = ((u - v) * (w - v)) * (w - u);
            &&& span != 0real
            &&& lagrange_at_zero((a, b, c), (u, v, w)) * span == a * (((v - w) * w) * v) + b * ((w
                * (w - u)) * u) + c * ((u * v) * (u - v))
        }),
{
    let span = ((u - v) * (w - v)) * (w - u);
    let d1 = (u - v) * (u - w);
    let d2 = (v - u) * (v - w);
    let d3 = (w - u) * (w - v);
    let t1 = (a * (v * w)) / d1;
    let t2 = (b * (u * w)) / d2;
    let t3 = (c * (u * v)) / d3;
    lemma_nonzero_product(u - v, w - v);
    lemma_nonzero_product((u - v) * (w - v), w - u);
    lemma_nonzero_product(u - v, u - w);
    lemma_nonzero_product(v - u, v - w);
    lemma_nonzero_product(w - u, w - v);
    lemma_div_mul(a * (v * w), d1);
    lemma_div_mul(b * (u * w), d2);
    lemma_div_mul(c * (u * v), d3);
    // The span as each denominator times the third difference.
    lemma_flip_two(u - v, w - v, w - u, v - w, u - w);
    assert(span == d1 * (v - w));
    lemma_flip_pair(u - v, w - v, w - u, v - u, v - w);
    assert(span == d2 * (w - u));
    lemma_reverse(w - u, w - v, u - v);
    assert(span == d3 * (u - v));
    lemma_assoc(t1, d1, v - w);
    lemma_turn_first(a, v, w, v - w);
    assert(t1 * span == a * (((v - w) * w) * v));
    lemma_assoc(t2, d2, w - u);
    lemma_turn_second(b, u, w, w - u);
    assert(t2 * span == b * ((w * (w - u)) * u));
    lemma_assoc(t3, d3, u - v);
    lemma_assoc(c, u * v, u - v);
    assert(t3 * span == c * ((u * v) * (u - v)));
    lemma_add_mul(t1 + t2, t3, span);
    lemma_add_mul(t1, t2, span);
    assert(lagrange_at_zero((a, b, c), (u, v, w)) == t1 + t2 + t3);
}

/// Under exact arithmetic, inverse quadratic interpolation through three
/// points whose residuals differ from one another, the first two of them not
/// zero, gives the abscissa at which the quadratic in `y` through the three
/// points meets `y = 0`.
pub proof fn lemma_inverse_quad_is_lagrange<T: Scalar>(
    val: spec_fn(T) -> real,
    xs: (T, T, T),
    ys: (T, T, T),
)
    requires
        exact_arithmetic(val),
        distinct_residuals(ys),
        val(ys.0) != 0real,
        val(ys.1) != 0real,
    ensures
        val(inverse_quad_spec(xs, ys)) == lagrange_at_zero(
            (val(xs.0), val(xs.1), val(xs.2)),
            (val(ys.0), val(ys.1), val(ys.2)),
        ),
{
    let a = val(xs.0);
    let b = val(xs.1);
    let c = val(xs.2);
    let u = val(ys.0);
    let v = val(ys.1);
    let w = val(ys.2);
    let q = u / v;
    let r = w / v;
    let s = w / u;
    lemma_div_mul(u, v);
    lemma_div_mul(w, v);
    lemma_div_mul(w, u);
    let num = (r * (r - q)) * (c - b) + ((1real - r) * s) * (c - a);
    let den = ((q - 1real) * (r - 1real)) * (s - 1real);
    let k = (v * v) * u;
    let span = ((u - v) * (w - v)) * (w - u);
    let e1 = (w * (w - u)) * u;
    let e2 = ((v - w) * w) * v;
    let e3 = (u * v) * (u - v);
    lemma_scaled_denominator(q, r, s, u, v, w);
    lemma_scaled_numerator(q, r, s, u, v, w, c - b, c - a);
    lemma_lagrange_terms(a, b, c, u, v, w);
    lemma_span_as_sum(u, v, w);
    assert(den * k == span);
    assert(num * k == e1 * (c - b) + e2 * (c - a));
    lemma_nonzero_factor(den, k);
    let t = num / den;
    lemma_div_mul(num, den);
    lemma_assoc(t, den, k);
    assert(t * span == num * k);
    let x = c - t;
    assert(val(inverse_quad_spec(xs, ys)) == x);
    lemma_sub_mul(c, t, span);
    lemma_combine(a, b, c, e1, e2, e3);
    assert(x * span == a * e2 + b * e1 + c * e3);
    lemma_cancel(x, lagrange_at_zero((a, b, c), (u, v, w)), span);
}

} // verus!
