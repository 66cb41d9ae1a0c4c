//! Integer core of a path tracer.
//!
//! Geometry, materials and shading are floating-point work and live with the
//! caller. What this crate holds is the part of the renderer that can be stated
//! exactly: the bounding volume hierarchy over order keys of the bounding
//! boxes and the nearest-hit traversal over it (`bvh`), the render settings
//! and the pixel order (`render`), the checkerboard parity (`textures`), and
//! the bookkeeping of the shader-based renderer (`gpu`: frame counter,
//! movement keys, material tables).
//!
//! Floating-point coordinates and ray parameters reach this crate as *order
//! keys*: `u64` values whose unsigned order is the numeric order of the numbers
//! they stand for (see `keys`).

pub mod bvh;
pub mod gpu;
pub mod keys;
pub mod render;
pub mod textures;
