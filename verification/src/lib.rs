//! Dense column-major matrices over any numeric element type: construction,
//! element access, arithmetic, LU decomposition without pivoting and
//! inversion by forward and back substitution.
//!
//! The element type is generic. Every contract that speaks of computed
//! elements is stated over the specification functions of the element type's
//! operators, and holds for every element type whose operators follow them.
//! What the operations amount to where those operators follow the laws of a
//! field is proved in `laws`.

pub mod algorithms;
pub mod error;
pub mod grid;
pub mod laws;
pub mod matrix;
pub mod scalar;
pub mod text;
