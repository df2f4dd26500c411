//! Lane-parallel ray tracing kernel: packed lanes, lane masks, ray batches,
//! ray-surface intersection, nearest-hit accumulation, the three surface
//! materials, and the lane bookkeeping of the batch tracers.
//!
//! Every type is generic over the scalar that fills a lane. The formulas
//! are stated over the four operations, the negation and the comparison of
//! that scalar; what lies beyond them, the square root and the draws of
//! chance, is asked of functions that the caller hands in.

pub mod camera;
pub mod color;
pub mod compaction;
pub mod geometry;
pub mod lanes;
pub mod materials;
pub mod model;
pub mod numbers;
pub mod objects;
pub mod order;
pub mod packed;
pub mod ray;
pub mod ray_tracing;
pub mod renderer;
pub mod simd_util;
