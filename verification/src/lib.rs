//! Verified core of a 3-D wireframe renderer.
//!
//! The library holds the parts of the rendering pipeline that work on plain
//! integer data: the primitive model with its default-color rule, the
//! near-plane case analysis of the clipper, the pairing of lattice samples
//! into wireframe segments, color packing, and the integer rasterizer with
//! its exact pixel-level contract. Floating-point geometry (camera matrices,
//! projection, screen mapping, surface formulas) lives with the caller, which
//! feeds integer pixel primitives into the rasterizer.

pub mod color;
pub mod objects;
pub mod clipping;
pub mod sampling;
pub mod drawing;
