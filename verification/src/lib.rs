//! Verified core of an optimal-control toolkit: the index logic that the
//! numerical solvers build on (dense matrix layout, Kronecker products,
//! column-major vectorisation, block concatenation), the grid bookkeeping of
//! the one-dimensional Hamilton-Jacobi-Bellman solver, and the bang-bang
//! control law.
//!
//! Everything here is generic in the element type, so the same code serves
//! the floating-point solvers that use it.

pub mod matrix;
pub mod dynamics;
pub mod lqr;
pub mod controllability;
pub mod hjb;
pub mod bangbang;
pub mod selection;
pub mod iteration;
