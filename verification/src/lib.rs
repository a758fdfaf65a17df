//! Exact-rational layer of a small numeric tower.
//!
//! A [`rational::Rational`] is a pair of non-negative component parts
//! ([`rational::Part`]); every arithmetic operation returns the tower's
//! closed result type [`number::Number`], and canonicalization
//! ([`rational::Rational::reduce`]) brings a fraction to lowest terms or
//! collapses it to an integer kind.

pub mod arith;
pub mod number;
pub mod rational;
pub mod traits;
