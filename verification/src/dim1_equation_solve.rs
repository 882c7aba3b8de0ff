//! Root finding on an interval whose ends carry residuals of opposite sign.

pub mod bisection;
pub mod brent;
pub mod find_root;
pub mod interpolation;
pub mod ring;
