//! A sparse ("virtual") texture engine for a paint canvas.
//!
//! The logical canvas may be far larger than any single GPU surface. It is
//! partitioned into fixed-size square tiles; storage for a tile is allocated
//! lazily, in fixed-capacity texture-array "piles", only when the tile is
//! first touched. This crate holds the verified logic of that engine: slot
//! allocation, tile addressing, the image-to-tile upload plan, the
//! viewport-to-tile-set resolver, and the per-pile mapping buffers consumed
//! by the compositing stage. Driving the GPU itself is left to the
//! surrounding application.

pub mod action;
pub mod global_instance;
pub mod graph;
pub mod id;
pub mod image;
pub mod math;
pub mod render;
pub mod tile;

use vstd::prelude::*;

verus! {

/// Edge length, in pixels, of one square tile.
pub const TILE_SIZE: u32 = 256;

} // verus!
