//! Functions of one scalar variable.

use vstd::prelude::*;

pub mod polynomial;

verus! {

/// A function of one variable.
///
/// The solvers take the function to be continuous on the interval they search;
/// that is the caller's claim, and nothing tests it.
pub trait Dim1Fn<T> {
    /// The value of the function at `x`.
    spec fn eval_spec(&self, x: T) -> T;

    /// Computes the value of the function at `x`.
    fn eval(&self, x: T) -> (y: T)
        ensures
            y == self.eval_spec(x),
    ;
}

} // verus!
