//! A symmetry-reduced matrix-element engine for a quantum spin-1/2 model on
//! a periodic two-dimensional triangular lattice: spin configurations are
//! held one bit per site in a machine word, lattice translations act as
//! exact bit permutations, bonds and elementary triangles are enumerated in
//! canonical row-major order, and the matrix elements of the supported
//! interaction operators are accumulated per representative basis state as
//! exact symbolic amplitudes, then packaged as coordinate-format sparse
//! matrices.

pub mod basis;
pub mod bonds;
pub mod config;
pub mod fnvtable;
pub mod geometry;
pub mod matrix;
pub mod ops;
pub mod phase;
pub mod translate;
