//! Bracketing root finders for continuous functions of one variable, over any
//! scalar type that supplies arithmetic and comparison.

pub mod dim1_equation_solve;
pub mod dim1_func;
pub mod exact;
pub mod float_traits;
pub mod linear_system;
pub mod matrix;
pub mod vectors;
