//! Intermediate representation of a program as a flat system of rank-1
//! quadratic constraints over a prime field, together with a binary exporter
//! that renumbers variables and produces a versioned, section-based
//! constraint-system file with an exact byte layout.

pub mod expression;
pub mod field;
pub mod prog;
pub mod r1cs;
pub mod render;
pub mod statement;
pub mod variable;
pub mod witness;
