//! Enumeration of polycubes: connected sets of unit cubes on a bounded
//! 3D integer lattice, counted up to the rotations of the cube.
//!
//! A [`model::Model`] holds a shape's occupied cells together with the far
//! corner of its bounding box (the near corner is always the origin).
//! Growth attaches one cube to a face of an existing cell, renormalizing the
//! whole shape when a step would need a negative coordinate.  Shapes are
//! deduplicated by a 64-bit fingerprint that is invariant under the 24
//! proper rotations of the cube.

pub mod digest;
pub mod fingerprint;
pub mod generation;
pub mod transform;
pub mod model;
pub mod records;
