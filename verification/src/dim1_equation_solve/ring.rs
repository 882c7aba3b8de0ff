//! Identities of real arithmetic, each small enough to be proved at once.

use vstd::prelude::*;

verus! {

/// A quotient times its divisor is the dividend.
pub proof fn lemma_div_mul(n: real, d: real)
    requires
        d != 0real,
    ensures
        (n / d) * d == n,
{
    let q = n / d;
    assert(q * d == n) by (nonlinear_arith)
        requires
            d != 0real,
            q == n / d,
    ;
}

/// Multiplication distributes over a difference on its left.
pub proof fn lemma_sub_mul(x: real, y: real, z: real)
    ensures
        (x - y) * z == x * z - y * z,
{
    assert((x - y) * z == x * z - y * z) by (nonlinear_arith);
}

/// Multiplication distributes over a sum on its left.
pub proof fn lemma_add_mul(x: real, y: real, z: real)
    ensures
        (x + y) * z == x * z + y * z,
{
    assert((x + y) * z == x * z + y * z) by (nonlinear_arith);
}

/// Multiplication is associative.
pub proof fn lemma_assoc(x: real, y: real, z: real)
    ensures
        (x * y) * z == x * (y * z),
{
    assert((x * y) * z == x * (y * z)) by (nonlinear_arith);
}

/// In a product of two products the inner factors change places.
pub proof fn lemma_swap_inner(x: real, h: real, y: real, k: real)
    ensures
        (x * h) * (y * k) == (x * y) * (h * k),
{
    assert((x * h) * (y * k) == (x * y) * (h * k)) by (nonlinear_arith);
}

/// In a product of three the last two factors change places.
pub proof fn lemma_swap_right(x: real, y: real, z: real)
    ensures
        (x * y) * z == (x * z) * y,
{
    assert((x * y) * z == (x * z) * y) by (nonlinear_arith);
}

/// A product of four, regrouped with its last factor first.
pub proof fn lemma_turn_first(a: real, x: real, y: real, z: real)
    ensures
        (a * (x * y)) * z == a * ((z * y) * x),
{
    assert((a * (x * y)) * z == a * ((z * y) * x)) by (nonlinear_arith);
}

/// A product of four, regrouped with its last factor second.
pub proof fn lemma_turn_second(a: real, x: real, y: real, z: real)
    ensures
        (a * (x * y)) * z == a * ((y * z) * x),
{
    assert((a * (x * y)) * z == a * ((y * z) * x)) by (nonlinear_arith);
}

/// The product of two numbers that are not zero is not zero.
pub proof fn lemma_nonzero_product(x: real, y: real)
    requires
        x != 0real,
        y != 0real,
    ensures
        x * y != 0real,
{
    assert(x * y != 0real) by (nonlinear_arith)
        requires
            x != 0real,
            y != 0real,
    ;
}

/// A factor of a product that is not zero is not zero.
pub proof fn lemma_nonzero_factor(x: real, y: real)
    requires
        x * y != 0real,
    ensures
        x != 0real,
{
    assert(x != 0real) by (nonlinear_arith)
        requires
            x * y != 0real,
    ;
}

/// A common factor that is not zero cancels.
pub proof fn lemma_cancel(x: real, y: real, p: real)
    requires
        x * p == y * p,
        p != 0real,
    ensures
        x == y,
{
    assert(x == y) by (nonlinear_arith)
        requires
            x * p == y * p,
            p != 0real,
    ;
}

/// A weighted sum of three terms less two of them, each weighted by a difference.
pub proof fn lemma_combine(a: real, b: real, c: real, e1: real, e2: real, e3: real)
    ensures
        c * (e1 + e2 + e3) - (e1 * (c - b) + e2 * (c - a)) == a * e2 + b * e1 + c * e3,
{
    assert(c * (e1 + e2 + e3) - (e1 * (c - b) + e2 * (c - a)) == a * e2 + b * e1 + c * e3)
        by (nonlinear_arith);
}

/// Multiplication distributes over a difference on its right.
pub proof fn lemma_mul_sub(p: real, x: real, y: real)
    ensures
        p * (x - y) == p * x - p * y,
{
    assert(p * (x - y) == p * x - p * y) by (nonlinear_arith);
}

/// The product of two differences, multiplied out.
pub proof fn lemma_expand_pair(x: real, y: real, z: real, t: real)
    ensures
        (x - y) * (z - t) == x * z - x * t - y * z + y * t,
{
    assert((x - y) * (z - t) == x * z - x * t - y * z + y * t) by (nonlinear_arith);
}

/// Multiplication distributes over four terms on its left.
pub proof fn lemma_distribute_four(x: real, y: real, h: real, k: real, z: real)
    ensures
        (x - y - h + k) * z == x * z - y * z - h * z + k * z,
{
    assert((x - y - h + k) * z == x * z - y * z - h * z + k * z) by (nonlinear_arith);
}

/// The factors of a product of three, moved round to the left.
pub proof fn lemma_rotate(x: real, y: real, z: real)
    ensures
        (x * y) * z == (y * z) * x,
{
    assert((x * y) * z == (y * z) * x) by (nonlinear_arith);
}

/// The factors of a product of three, moved round to the right.
pub proof fn lemma_cycle(x: real, y: real, z: real)
    ensures
        (x * y) * z == (z * x) * y,
{
    assert((x * y) * z == (z * x) * y) by (nonlinear_arith);
}

/// The factors of a product of three, in reverse order.
pub proof fn lemma_reverse(x: real, y: real, z: real)
    ensures
        (x * y) * z == (z * y) * x,
{
    assert((x * y) * z == (z * y) * x) by (nonlinear_arith);
}

/// The last two factors of a product of three change places and signs.
pub proof fn lemma_flip_two(x: real, y: real, z: real, ny: real, nz: real)
    requires
        ny == -y,
        nz == -z,
    ensures
        (x * y) * z == (x * nz) * ny,
{
    assert((x * y) * z == (x * (-z)) * (-y)) by (nonlinear_arith);
}

/// The first two factors of a product of three change signs.
pub proof fn lemma_flip_pair(x: real, y: real, z: real, nx: real, ny: real)
    requires
        nx == -x,
        ny == -y,
    ensures
        (x * y) * z == (nx * ny) * z,
{
    assert((x * y) * z == ((-x) * (-y)) * z) by (nonlinear_arith);
}

} // verus!
