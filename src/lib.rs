//! Integer core of a procedural terrain generator: the vertex grid and its
//! triangle index buffer, the toroidal gradient lattice lookup, the clamped
//! smoothing stencil, the surface classifier and the volumetric byte packer.
//! The floating-point sampling that runs over these structures lives with
//! the caller.

pub mod grid;
pub mod lattice;
pub mod stencil;
pub mod volume;
pub mod classify;
pub mod octaves;
