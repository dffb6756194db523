//! Index arithmetic for Weak Galerkin finite elements on structured rectangular meshes.
//!
//! `rect_mesh` numbers the elements and the non-boundary sides of a rectangular mesh and
//! maps the numbers to mesh coordinates and back; `rect_topology` and `mixed_radix`
//! hold the mathematics of that numbering. `wg_basis` numbers the elements of a Weak
//! Galerkin basis over any mesh that offers what `mesh` asks, with the monomials that
//! `monomial` and `monomial_seqs` define. `linear_algebra` decides how a sparse system goes
//! to a native solver.

pub mod common;
pub mod linear_algebra;
pub mod mesh;
pub mod mixed_radix;
pub mod monomial;
pub mod monomial_seqs;
pub mod rect_mesh;
pub mod rect_topology;
pub mod wg_basis;
