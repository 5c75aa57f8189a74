//! Projectors: barycentric coordinates of a point relative to a line,
//! a triangle, a tetrahedron or an octahedron.

pub mod vector;
pub mod ratio;
pub mod mixture;
pub mod line;
pub mod triangle;
pub mod cramer;
pub mod tetrahedron;
pub mod octahedron;
