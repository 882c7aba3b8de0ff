//! Exact arithmetic: the hypothesis under which the solvers' geometric
//! properties hold.
//!
//! A reading of a scalar type is a function from its values to the real
//! numbers. The arithmetic is exact under a reading where each operation of
//! the type is the operation of the real numbers on what is read. Rounding
//! arithmetic is exact under no reading; of such a type the solvers'
//! contracts still hold, the results stated under this hypothesis need not.

use crate::float_traits::Scalar;
use vstd::prelude::*;

verus! {

/// Whether the arithmetic of `T` is exact under the reading `val`.
pub open spec fn exact_arithmetic<T: Scalar>(val: spec_fn(T) -> real) -> bool {
    &&& val(T::ZERO) == 0real
    &&& val(T::ONE) == 1real
    &&& forall|a: T, b: T| val(#[trigger] a.add_spec(b)) == val(a) + val(b)
    &&& forall|a: T, b: T| val(#[trigger] a.sub_spec(b)) == val(a) - val(b)
    &&& forall|a: T, b: T| val(#[trigger] a.mul_spec(b)) == val(a) * val(b)
    &&& forall|a: T, b: T| val(b) != 0real ==> val(#[trigger] a.div_spec(b)) == val(a) / val(b)
    &&& forall|a: T| val(#[trigger] a.neg_spec()) == -val(a)
    &&& forall|a: T, b: T| #[trigger] a.lt_spec(b) == (val(a) < val(b))
    &&& forall|a: T, b: T| #[trigger] a.le_spec(b) == (val(a) <= val(b))
    &&& forall|a: T, b: T| #[trigger] a.eq_spec(b) == (val(a) == val(b))
}

/// The magnitude of a real number.
pub open spec fn magnitude(x: real) -> real {
    if x < 0real {
        -x
    } else {
        x
    }
}

/// The larger of two real numbers.
pub open spec fn larger(x: real, y: real) -> real {
    if x >= y {
        x
    } else {
        y
    }
}

/// Two to the power `k`.
pub open spec fn pow2(k: nat) -> real
    decreases k,
{
    if k == 0 {
        1real
    } else {
        2real * pow2((k - 1) as nat)
    }
}

/// Under exact arithmetic, two reads as two, the midpoint as the mean, the
/// absolute value as the magnitude and the maximum as the larger.
pub proof fn lemma_derived_operations<T: Scalar>(val: spec_fn(T) -> real)
    requires
        exact_arithmetic(val),
    ensures
        val(crate::float_traits::two_spec::<T>()) == 2real,
        forall|a: T, b: T|
            val(#[trigger] crate::float_traits::midpoint_spec(a, b)) == (val(a) + val(b)) / 2real,
        forall|a: T| val(#[trigger] crate::float_traits::abs_spec(a)) == magnitude(val(a)),
        forall|a: T, b: T|
            val(#[trigger] crate::float_traits::max_spec(a, b)) == larger(val(a), val(b)),
{
}

/// Every power of two is above zero.
pub proof fn lemma_pow2_positive(k: nat)
    ensures
        pow2(k) > 0real,
    decreases k,
{
    if k > 0 {
        lemma_pow2_positive((k - 1) as nat);
    }
}

} // verus!
