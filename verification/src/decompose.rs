//! Decomposers that rest on one kind of projector.

pub mod octahedron;
