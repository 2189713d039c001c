//! Core of an interactive vector-map renderer: tile addressing and
//! transforms, a cascading style engine, a binary vector-tile decoder,
//! a tessellator producing quantized GPU vertices, a per-tile spatial
//! index for pointer interaction, and a bounded tile cache.
//!
//! All geometry is held in exact integer coordinates (tile-local extent
//! units and fixed-point world coordinates), so every stage of the
//! pipeline is verified; narrowing to floating point for the GPU is left
//! to the unverified shell around the library.

pub mod cache;
pub mod collider;
pub mod config;
pub mod css;
pub mod feature_collection;
pub mod math;
pub mod object;
pub mod tessellator;
pub mod vector_tile;
pub mod vertex;
