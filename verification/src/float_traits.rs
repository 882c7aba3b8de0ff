//! The arithmetic that a scalar type supplies to the solvers.
//!
//! Every operation is a function of its arguments: each executable method
//! returns the value that its specification function names. Nothing else is
//! promised of an implementation here, so a type whose arithmetic rounds
//! conforms. The results that hold only of exact arithmetic are stated
//! elsewhere, under that hypothesis.

use vstd::prelude::*;

verus! {

/// The constants of a scalar type.
pub trait FloatConst: Sized {
    /// The default tolerance: the distance that separates one from its
    /// nearest neighbour.
    const EPSILON: Self;

    /// The additive identity.
    const ZERO: Self;

    /// The multiplicative identity.
    const ONE: Self;
}

/// Arithmetic and comparison on a scalar type.
pub trait Scalar: Copy + FloatConst {
    /// The sum that `add` returns.
    spec fn add_spec(self, rhs: Self) -> Self;

    /// The difference that `sub` returns.
    spec fn sub_spec(self, rhs: Self) -> Self;

    /// The product that `mul` returns.
    spec fn mul_spec(self, rhs: Self) -> Self;

    /// The quotient that `div` returns.
    spec fn div_spec(self, rhs: Self) -> Self;

    /// The negation that `neg` returns.
    spec fn neg_spec(self) -> Self;

    /// Whether `self` is strictly below `rhs`.
    spec fn lt_spec(self, rhs: Self) -> bool;

    /// Whether `self` is below or equal to `rhs`.
    spec fn le_spec(self, rhs: Self) -> bool;

    /// Whether `self` and `rhs` compare equal.
    spec fn eq_spec(self, rhs: Self) -> bool;

    fn add(self, rhs: Self) -> (r: Self)
        ensures
            r == self.add_spec(rhs),
    ;

    fn sub(self, rhs: Self) -> (r: Self)
        ensures
            r == self.sub_spec(rhs),
    ;

    fn mul(self, rhs: Self) -> (r: Self)
        ensures
            r == self.mul_spec(rhs),
    ;

    fn div(self, rhs: Self) -> (r: Self)
        ensures
            r == self.div_spec(rhs),
    ;

    fn neg(self) -> (r: Self)
        ensures
            r == self.neg_spec(),
    ;

    fn lt(self, rhs: Self) -> (r: bool)
        ensures
            r == self.lt_spec(rhs),
    ;

    fn le(self, rhs: Self) -> (r: bool)
        ensures
            r == self.le_spec(rhs),
    ;

    fn eq(self, rhs: Self) -> (r: bool)
        ensures
            r == self.eq_spec(rhs),
    ;
}

/// The number two, as the sum of one and one.
pub open spec fn two_spec<T: Scalar>() -> T {
    T::ONE.add_spec(T::ONE)
}

/// The point halfway between `a` and `b`: their sum over two.
pub open spec fn midpoint_spec<T: Scalar>(a: T, b: T) -> T {
    a.add_spec(b).div_spec(two_spec::<T>())
}

/// The magnitude of `x`: `x` itself where it is above zero, else its negation.
pub open spec fn abs_spec<T: Scalar>(x: T) -> T {
    if T::ZERO.lt_spec(x) {
        x
    } else {
        x.neg_spec()
    }
}

/// The larger of two scalars, the first where neither is larger.
pub open spec fn max_spec<T: Scalar>(a: T, b: T) -> T {
    if b.le_spec(a) {
        a
    } else {
        b
    }
}

/// The smaller of two scalars, the first where neither is smaller.
pub open spec fn min_spec<T: Scalar>(a: T, b: T) -> T {
    if a.le_spec(b) {
        a
    } else {
        b
    }
}

/// Computes the number two.
pub fn two<T: Scalar>() -> (r: T)
    ensures
        r == two_spec::<T>(),
{
    T::ONE.add(T::ONE)
}

/// Computes the point halfway between `a` and `b`.
pub fn midpoint<T: Scalar>(a: T, b: T) -> (r: T)
    ensures
        r == midpoint_spec(a, b),
{
    a.add(b).div(two::<T>())
}

/// Absolute value. An implementation may replace the body by a faster one
/// that returns the same value.
pub trait Abs: Scalar {
    fn abs(self) -> (r: Self)
        ensures
            r == abs_spec(self),
    {
        if Self::ZERO.lt(self) {
            self
        } else {
            self.neg()
        }
    }
}

/// Maximum and minimum of two scalars. An implementation may replace the
/// bodies by faster ones that return the same values.
pub trait MaxMin: Scalar {
    fn max(self, other: Self) -> (r: Self)
        ensures
            r == max_spec(self, other),
    {
        if other.le(self) {
            self
        } else {
            other
        }
    }

    fn min(self, other: Self) -> (r: Self)
        ensures
            r == min_spec(self, other),
    {
        if self.le(other) {
            self
        } else {
            other
        }
    }
}

} // verus!
