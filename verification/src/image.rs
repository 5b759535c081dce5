//! Canvas images and their layers.
//!
//! A [`CImage`] is the logical canvas: a pixel extent and a root [`Layer`].
//! A layer carries only its identity and size here; its pixels live in tile
//! slots managed by the tile storage.

use vstd::prelude::*;
use crate::id::Id;
use crate::math::UVec2;
use crate::tile::{GpuTileStorage, TileCopy, tiles_across, upload_copy_ok};

verus! {

/// The phantom kind of layer identities: an `Id<LayerIdentity>` names one
/// image layer. (The identifier cannot be typed by `Layer` itself, since a
/// layer carries its own identifier.)
#[derive(Debug)]
pub struct LayerIdentity;

/// An opaque identifier naming one image layer.
pub type LayerId = Id<LayerIdentity>;

/// One image layer: an identity plus a pixel extent.
#[derive(Debug)]
pub struct Layer {
    pub id: LayerId,
    pub size: UVec2,
}

impl Layer {
    /// A fresh, empty layer under a newly drawn identity.
    pub fn new() -> (layer: Layer)
        ensures
            layer.id@ != 0,
            layer.size == (UVec2 { x: 0, y: 0 }),
    {
        Layer { id: Id::random(), size: UVec2::new(0, 0) }
    }

    pub fn id(&self) -> (id: LayerId)
        ensures
            id == self.id,
    {
        self.id
    }

    /// Create a layer for a decoded `width × height` image and stage its
    /// pixels: a fresh identity is drawn, a slot is allocated for every grid
    /// tile, and the returned plan tells the application which chunk of the
    /// image to copy into which slot.
    pub fn from_image(width: u32, height: u32, tiles: &mut GpuTileStorage) -> (r: (
        Layer,
        Vec<TileCopy>,
    ))
        requires
            old(tiles).wf(),
            1 <= width,
            1 <= height,
            old(tiles).pile_count() + tiles_across(width) * tiles_across(height) <= usize::MAX,
        ensures
            final(tiles).wf(),
            r.0.id@ != 0,
            r.0.size == (UVec2 { x: width, y: height }),
            forall|a: u32, b: u32|
                a < tiles_across(width) && b < tiles_across(height)
                    ==> #[trigger] final(tiles).tile_map().contains_key((r.0.id@, a, b)),
            r.1@.len() == tiles_across(width) * tiles_across(height),
            forall|i: int|
                0 <= i < r.1@.len() ==> upload_copy_ok(
                    *final(tiles),
                    r.0.id,
                    width,
                    height,
                    #[trigger] r.1@[i],
                ),
            old(tiles).slots_accounted() ==> final(tiles).slots_accounted(),
    {
        let layer = Layer { id: Id::random(), size: UVec2::new(width, height) };
        let plan = tiles.upload_image(layer.id, width, height);
        (layer, plan)
    }
}

/// The logical canvas image: its size and its root layer.
#[derive(Debug)]
pub struct CImage {
    pub size: UVec2,
    pub root: Layer,
}

impl CImage {
    /// An empty canvas of the given size, with a fresh root layer.
    pub fn new(size: UVec2) -> (img: CImage)
        ensures
            img.size == size,
            img.root.id@ != 0,
    {
        CImage { size, root: Layer::new() }
    }

    /// A canvas over an existing layer.
    pub fn from_layer(size: UVec2, root: Layer) -> (img: CImage)
        ensures
            img.size == size,
            img.root == root,
    {
        CImage { size, root }
    }

    pub fn size(&self) -> (size: UVec2)
        ensures
            size == self.size,
    {
        self.size
    }

    pub fn root(&self) -> (root: &Layer)
        ensures
            *root == self.root,
    {
        &self.root
    }
}

} // verus!
