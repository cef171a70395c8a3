//! Algebraic structures the data model is built on: monoids, lattices,
//! semirings, and ordered sets.
pub mod lattice;
pub mod monoid;
pub mod ordered;
pub mod semiring;
