//! GPU tile storage: lazy slot allocation and tile addressing.
//!
//! The canvas is split into fixed-size square tiles. Tile pixels live in
//! "piles" — fixed-capacity texture arrays — and each resident tile owns one
//! slot (one array layer) of one pile. This module holds the verified
//! book-keeping of that storage: which key owns which slot, which slots are
//! free, and when a new pile must be created. The GPU resources themselves
//! (textures and views) are created by the surrounding application, one per
//! pile index and one per slot, as directed by the results here.
//!
//! Pile index 0 is reserved for the sentinel "empty tile": a permanent 1×1
//! placeholder that lookups of unallocated tiles resolve to.

use vstd::prelude::*;
use dashmap::DashMap;
use crate::id::Id;
use crate::image::LayerId;
use crate::math::{URect, UVec2, div_ceil_spec, div_ceil_u32};

verus! {

/// Number of tile slots (texture-array layers) in one pile.
pub const TILES_PER_PILE: u32 = 256;

/// A tile's lookup key, flattened to plain values: the layer identity and
/// the tile's grid coordinate.
pub type TileKey = (u128, u32, u32);

/// A physical tile slot: the pile index and the array layer inside the pile.
pub type PhysicalTileSlot = (usize, u32);

/// The key under which the sentinel "empty tile" is stored.
pub open spec fn empty_key() -> TileKey {
    (0u128, 0u32, 0u32)
}

/// The physical slot backing the sentinel tile: layer 0 of the reserved
/// pile 0.
pub open spec fn sentinel_slot() -> PhysicalTileSlot {
    (0usize, 0u32)
}

/// The lookup key of one grid cell of a layer.
pub open spec fn key_of(image_layer: LayerId, index: UVec2) -> TileKey {
    (image_layer@, index.x, index.y)
}

#[verifier::external_type_specification]
#[verifier::external_body]
#[verifier::reject_recursive_types(K)]
#[verifier::reject_recursive_types(V)]
#[verifier::reject_recursive_types(S)]
pub struct ExDashMap<K, V, S>(DashMap<K, V, S>);

/// The entries held by the concurrent tile index.
pub uninterp spec fn index_contents(m: DashMap<TileKey, PhysicalTileSlot>) -> Map<
    TileKey,
    PhysicalTileSlot,
>;

/// Relies on dashmap::DashMap::new: the freshly created map is empty.
#[verifier::external_body]
fn index_new() -> (m: DashMap<TileKey, PhysicalTileSlot>)
    ensures
        index_contents(m) =~= Map::empty(),
{
    DashMap::new()
}

/// Relies on dashmap::DashMap::get: returns the value stored under the key,
/// or nothing when the key is absent.
#[verifier::external_body]
fn index_get(m: &DashMap<TileKey, PhysicalTileSlot>, key: TileKey) -> (r: Option<PhysicalTileSlot>)
    ensures
        match r {
            Some(slot) => index_contents(*m).contains_key(key) && index_contents(*m)[key] == slot,
            None => !index_contents(*m).contains_key(key),
        },
{
    m.get(&key).map(|entry| *entry.value())
}

/// Relies on dashmap::DashMap::insert: afterwards the key maps to the given
/// value and every other entry is unchanged.
#[verifier::external_body]
fn index_insert(m: &mut DashMap<TileKey, PhysicalTileSlot>, key: TileKey, slot: PhysicalTileSlot)
    ensures
        index_contents(*final(m)) == index_contents(*old(m)).insert(key, slot),
{
    m.insert(key, slot);
}

/// How many tiles an extent of pixels spans: one per started block of
/// `TILE_SIZE` pixels.
pub open spec fn tiles_across(extent: u32) -> int {
    div_ceil_spec(extent as int, crate::TILE_SIZE as int)
}

/// The pixel extent of one tile's chunk of a source image along one axis:
/// a full tile, clipped at the trailing edge of the image.
pub open spec fn chunk_extent(total: int, origin: int) -> int {
    if total - origin < crate::TILE_SIZE {
        total - origin
    } else {
        crate::TILE_SIZE as int
    }
}

/// `(ax, ay)` comes before `(bx, by)` in column-major traversal order.
spec fn lex_before(ax: u32, ay: u32, bx: u32, by: u32) -> bool {
    ax < bx || (ax == bx && ay < by)
}

/// One GPU copy of the upload plan: which tile slot receives pixels, and
/// which chunk of the source image they come from.
#[derive(Debug, Clone, Copy, PartialEq, Eq)]
pub struct TileCopy {
    pub tile: TileId,
    pub origin: UVec2,
    pub size: UVec2,
}

/// A copy command is correct for an upload of a `width × height` image to
/// `image_layer`, judged against storage state `s`: it targets the slot that
/// `s` binds to the tile's key, and it covers exactly the tile's chunk of
/// the image.
pub open spec fn upload_copy_ok(
    s: GpuTileStorage,
    image_layer: LayerId,
    width: u32,
    height: u32,
    c: TileCopy,
) -> bool {
    let k = (image_layer@, c.tile.index.x, c.tile.index.y);
    &&& c.tile.image_layer == image_layer
    &&& c.tile.index.x < tiles_across(width)
    &&& c.tile.index.y < tiles_across(height)
    &&& s.tile_map().contains_key(k)
    &&& s.tile_map()[k] == ((c.tile.pile_index, c.tile.pile_layer))
    &&& c.origin.x == c.tile.index.x * crate::TILE_SIZE
    &&& c.origin.y == c.tile.index.y * crate::TILE_SIZE
    &&& c.size.x == chunk_extent(width as int, c.origin.x as int)
    &&& c.size.y == chunk_extent(height as int, c.origin.y as int)
}

/// Some copy of the plan targets grid coordinate `(a, b)`.
pub open spec fn plan_covers(plan: Seq<TileCopy>, a: u32, b: u32) -> bool {
    exists|i: int| 0 <= i < plan.len() && #[trigger] plan[i].tile.index == (UVec2 { x: a, y: b })
}

/// An upload that a single fresh pile can serve: no slot is free, the
/// layer's grid fits in one pile, and none of its tiles is resident yet.
pub open spec fn single_pile_upload(
    pre: GpuTileStorage,
    image_layer: LayerId,
    width: u32,
    height: u32,
) -> bool {
    &&& pre.free_list().len() == 0
    &&& tiles_across(width) * tiles_across(height) <= TILES_PER_PILE
    &&& forall|a: u32, b: u32|
        a < tiles_across(width) && b < tiles_across(height)
            ==> !#[trigger] pre.tile_map().contains_key((image_layer@, a, b))
}

/// First tile column touched by a pixel rectangle.
pub open spec fn visible_min_x(rect: URect) -> int {
    rect.x as int / crate::TILE_SIZE as int
}

/// First tile row touched by a pixel rectangle.
pub open spec fn visible_min_y(rect: URect) -> int {
    rect.y as int / crate::TILE_SIZE as int
}

/// Last tile column drawn for a pixel rectangle: the conservative cover —
/// the ceiling of the right edge — clamped to the last grid column.
pub open spec fn visible_max_x(rect: URect, total_tile_count: UVec2) -> int {
    vstd::math::min(
        div_ceil_spec(rect.x + rect.width, crate::TILE_SIZE as int),
        total_tile_count.x - 1,
    )
}

/// Last tile row drawn for a pixel rectangle, clamped to the last grid row.
pub open spec fn visible_max_y(rect: URect, total_tile_count: UVec2) -> int {
    vstd::math::min(
        div_ceil_spec(rect.y + rect.height, crate::TILE_SIZE as int),
        total_tile_count.y - 1,
    )
}

/// The visible tiles of one pile, grouped for one batched compositing
/// dispatch. The application binds `pile_index` to that pile's texture view.
#[derive(Debug, Clone)]
pub struct GroupedTileViews {
    pub pile_index: usize,
    pub tiles: Vec<TileId>,
}

/// Some tile of the sequence has grid coordinate `(a, b)`.
pub open spec fn tiles_cover(tiles: Seq<TileId>, a: u32, b: u32) -> bool {
    exists|k: int| 0 <= k < tiles.len() && (#[trigger] tiles[k]).index == (UVec2 { x: a, y: b })
}

/// The tile equals one of the first `n` entries of the sequence.
pub open spec fn among_tiles(tiles: Seq<TileId>, n: int, t: TileId) -> bool {
    exists|j: int| 0 <= j < n && j < tiles.len() && t == #[trigger] tiles[j]
}

/// Some group holds exactly this tile.
pub open spec fn in_groups(groups: Seq<GroupedTileViews>, t: TileId) -> bool {
    exists|g: int, i: int|
        0 <= g < groups.len() && 0 <= i < groups[g].tiles@.len() && t == #[trigger] groups[g].tiles@[i]
}

/// Some group holds a tile at grid coordinate `(a, b)`.
pub open spec fn groups_cover(groups: Seq<GroupedTileViews>, a: u32, b: u32) -> bool {
    exists|g: int, i: int|
        0 <= g < groups.len() && 0 <= i < groups[g].tiles@.len()
            && (#[trigger] groups[g].tiles@[i]).index == (UVec2 { x: a, y: b })
}

/// The address of one resident (or sentinel-backed) tile: which layer and
/// grid cell it stands for, and the physical slot its pixels live in.
#[derive(Debug, Clone, Copy, PartialEq, Eq)]
pub struct TileId {
    pub image_layer: LayerId,
    pub index: UVec2,
    pub pile_index: usize,
    pub pile_layer: u32,
}

/// A resolved tile, handed to callers of the lookup functions. The
/// application binds `id.pile_index` / `id.pile_layer` to the matching
/// texture view.
#[derive(Debug, Clone, Copy)]
pub struct Tile {
    pub id: TileId,
}

/// Storage for every GPU-resident tile: the key→slot index, the count of
/// piles created so far (including the reserved sentinel pile 0), and the
/// list of still-unoccupied slots.
///
/// Methods that insert or allocate take `&mut self`: one guard serializes
/// the index and the free list together, so a tile can never be observed
/// missing while its slot is already taken. Racing lookups of a missing key
/// therefore cannot double-allocate, and no slot is ever leaked by a losing
/// racer.
pub struct GpuTileStorage {
    piles: usize,
    tiles: DashMap<TileKey, PhysicalTileSlot>,
    available_slices: Vec<PhysicalTileSlot>,
}

impl GpuTileStorage {
    /// The key→slot mapping of every resident tile (the sentinel included).
    pub closed spec fn tile_map(self) -> Map<TileKey, PhysicalTileSlot> {
        index_contents(self.tiles)
    }

    /// How many piles exist, the reserved sentinel pile 0 included.
    pub closed spec fn pile_count(self) -> int {
        self.piles as int
    }

    /// The slots not yet occupied by any tile.
    pub closed spec fn free_list(self) -> Seq<PhysicalTileSlot> {
        self.available_slices@
    }

    /// A slot that a real (non-sentinel) tile may occupy: it lies in a
    /// created pile other than the sentinel pile.
    pub open spec fn slot_in_piles(self, slot: PhysicalTileSlot) -> bool {
        &&& 1 <= slot.0 < self.pile_count()
        &&& slot.1 < TILES_PER_PILE
    }

    /// Well-formedness of the storage:
    /// - the sentinel tile is resident, in its reserved slot;
    /// - every other resident tile occupies a slot of a created pile;
    /// - the free list holds slots of created piles, without duplicates;
    /// - no slot is both free and occupied;
    /// - no two distinct keys share a slot.
    pub open spec fn wf(self) -> bool {
        &&& 1 <= self.pile_count()
        &&& self.tile_map().contains_key(empty_key())
        &&& self.tile_map()[empty_key()] == sentinel_slot()
        &&& forall|k: TileKey|
            #[trigger] self.tile_map().contains_key(k) && k != empty_key()
                ==> self.slot_in_piles(self.tile_map()[k])
        &&& forall|i: int|
            0 <= i < self.free_list().len() ==> self.slot_in_piles(#[trigger] self.free_list()[i])
        &&& forall|i: int, j: int|
            0 <= i < j < self.free_list().len() ==> self.free_list()[i] != self.free_list()[j]
        &&& forall|k: TileKey, i: int|
            #[trigger] self.tile_map().contains_key(k) && 0 <= i < self.free_list().len()
                ==> self.tile_map()[k] != #[trigger] self.free_list()[i]
        &&& forall|k1: TileKey, k2: TileKey|
            #[trigger] self.tile_map().contains_key(k1) && #[trigger] self.tile_map().contains_key(
                k2,
            ) && k1 != k2 ==> self.tile_map()[k1] != self.tile_map()[k2]
    }

    /// The slot is occupied by some tile or still free.
    pub open spec fn slot_accounted(self, slot: PhysicalTileSlot) -> bool {
        ||| exists|k: TileKey|
            #[trigger] self.tile_map().contains_key(k) && self.tile_map()[k] == slot
        ||| exists|i: int| 0 <= i < self.free_list().len() && self.free_list()[i] == slot
    }

    /// Every slot of every created pile is either occupied by exactly one
    /// tile or present in the free list — never neither. (Never *both*, and
    /// "exactly one", are part of `wf`.) This holds of every storage the
    /// public operations produce; only a bare `allocate_slot`, whose caller
    /// owes the handed-out slot to an insertion, leaves a slot out.
    pub open spec fn slots_accounted(self) -> bool {
        forall|p: int, l: int|
            1 <= p < self.pile_count() && 0 <= l < TILES_PER_PILE
                ==> #[trigger] self.slot_accounted(((p as usize, l as u32)))
    }

    /// What a lookup of `(image_layer, t.index)` must hand back: the stored
    /// slot under the queried layer when the key is resident, else the
    /// sentinel-backed tile — sentinel slot, sentinel layer identity — with
    /// the *requested* coordinate attached.
    pub open spec fn resolves(self, image_layer: LayerId, t: TileId) -> bool {
        let k = key_of(image_layer, t.index);
        if self.tile_map().contains_key(k) {
            &&& t.image_layer == image_layer
            &&& (t.pile_index, t.pile_layer) == self.tile_map()[k]
        } else {
            &&& t.image_layer@ == 0
            &&& (t.pile_index, t.pile_layer) == sentinel_slot()
        }
    }

    /// How many piles exist so far, the reserved sentinel pile 0 included.
    /// The application creates one texture array per pile index beyond those
    /// it already backs.
    pub fn pile_total(&self) -> (n: usize)
        ensures
            n == self.pile_count(),
    {
        self.piles
    }

    /// Fresh storage: one reserved sentinel pile, the sentinel tile
    /// resident, no free slots.
    pub fn new() -> (s: GpuTileStorage)
        ensures
            s.wf(),
            s.pile_count() == 1,
            s.free_list() == Seq::<PhysicalTileSlot>::empty(),
            s.tile_map() == Map::<TileKey, PhysicalTileSlot>::empty().insert(
                empty_key(),
                sentinel_slot(),
            ),
            s.slots_accounted(),
    {
        let mut tiles = index_new();
        index_insert(&mut tiles, (0, 0, 0), (0, 0));
        GpuTileStorage { piles: 1, tiles, available_slices: Vec::new() }
    }

    /// How one allocation changes the allocator's half of the storage: when
    /// a free slot remains, the last one is handed out; otherwise a new pile
    /// is created, its last slot is handed out and the rest become free.
    pub open spec fn slot_allocation(
        pre: GpuTileStorage,
        post: GpuTileStorage,
        slot: PhysicalTileSlot,
    ) -> bool {
        if pre.free_list().len() > 0 {
            &&& post.pile_count() == pre.pile_count()
            &&& slot == pre.free_list().last()
            &&& post.free_list() == pre.free_list().drop_last()
        } else {
            &&& post.pile_count() == pre.pile_count() + 1
            &&& slot == ((pre.pile_count() as usize, (TILES_PER_PILE - 1) as u32))
            &&& post.free_list().len() == TILES_PER_PILE - 1
            &&& forall|i: int|
                0 <= i < TILES_PER_PILE - 1 ==> #[trigger] post.free_list()[i] == ((
                pre.pile_count() as usize,
                i as u32,
            ))
        }
    }

    /// Create a new pile when, and only when, no free slot remains:
    /// afterwards the free list holds every slot of the new pile. Pile
    /// construction is the heavyweight step (the application creates one
    /// texture array per new pile index), so it happens at most once per
    /// `TILES_PER_PILE` allocations.
    fn try_allocate_new_tile_pile(&mut self)
        requires
            old(self).wf(),
            old(self).pile_count() < usize::MAX,
        ensures
            final(self).wf(),
            final(self).tile_map() == old(self).tile_map(),
            old(self).free_list().len() > 0 ==> *final(self) == *old(self),
            old(self).free_list().len() == 0 ==> {
                &&& final(self).pile_count() == old(self).pile_count() + 1
                &&& final(self).free_list().len() == TILES_PER_PILE
                &&& forall|i: int|
                    0 <= i < TILES_PER_PILE ==> #[trigger] final(self).free_list()[i] == ((
                    old(self).pile_count() as usize,
                    i as u32,
                ))
            },
    {
        if self.available_slices.len() > 0 {
            return ;
        }
        let pile_index = self.piles;
        self.piles = self.piles + 1;
        let mut i: u32 = 0;
        while i < TILES_PER_PILE
            invariant
                i <= TILES_PER_PILE,
                self.piles == old(self).pile_count() + 1,
                self.tiles == old(self).tiles,
                pile_index == old(self).pile_count(),
                self.available_slices@.len() == i,
                forall|j: int|
                    0 <= j < i ==> #[trigger] self.available_slices@[j] == ((
                    pile_index,
                    j as u32,
                )),
            decreases TILES_PER_PILE - i,
        {
            self.available_slices.push((pile_index, i));
            i = i + 1;
        }
    }

    /// Hand out one free physical slot, creating a new pile first when none
    /// is free. The slot is in a created pile, is occupied by no tile, and
    /// leaves the free list. No release operation exists: tiles are immortal
    /// for the process lifetime.
    pub fn allocate_slot(&mut self) -> (slot: PhysicalTileSlot)
        requires
            old(self).wf(),
            old(self).pile_count() < usize::MAX,
        ensures
            final(self).wf(),
            final(self).tile_map() == old(self).tile_map(),
            GpuTileStorage::slot_allocation(*old(self), *final(self), slot),
            final(self).slot_in_piles(slot),
            forall|k: TileKey|
                #[trigger] final(self).tile_map().contains_key(k) ==> final(self).tile_map()[k]
                    != slot,
            forall|i: int|
                0 <= i < final(self).free_list().len() ==> #[trigger] final(self).free_list()[i]
                    != slot,
    {
        self.try_allocate_new_tile_pile();
        let slot = self.available_slices.pop().unwrap();
        slot
    }

    /// Lookup that allocates on a miss: returns the resident tile when the
    /// key is present and the storage untouched; otherwise allocates one
    /// slot, binds it to the key, and returns the new tile.
    pub fn get_tile_mut(&mut self, image_layer: LayerId, index: UVec2) -> (t: Tile)
        requires
            old(self).wf(),
            old(self).pile_count() < usize::MAX,
        ensures
            final(self).wf(),
            t.id.image_layer == image_layer,
            t.id.index == index,
            final(self).tile_map().contains_key(key_of(image_layer, index)),
            final(self).tile_map()[key_of(image_layer, index)] == ((
                t.id.pile_index,
                t.id.pile_layer,
            )),
            old(self).tile_map().contains_key(key_of(image_layer, index)) ==> *final(self) == *old(self),
            !old(self).tile_map().contains_key(key_of(image_layer, index)) ==> {
                &&& final(self).tile_map() == old(self).tile_map().insert(
                    key_of(image_layer, index),
                    (t.id.pile_index, t.id.pile_layer),
                )
                &&& GpuTileStorage::slot_allocation(
                    *old(self),
                    *final(self),
                    (t.id.pile_index, t.id.pile_layer),
                )
                &&& final(self).slot_in_piles((t.id.pile_index, t.id.pile_layer))
            },
            old(self).slots_accounted() ==> final(self).slots_accounted(),
    {
        let ghost pre = *self;
        let key = (image_layer.value(), index.x, index.y);
        match index_get(&self.tiles, key) {
            Some(slot) => Tile {
                id: TileId { image_layer, index, pile_index: slot.0, pile_layer: slot.1 },
            },
            None => {
                let ghost old_free = self.free_list();
                let slot = self.allocate_slot();
                let ghost mid = *self;
                index_insert(&mut self.tiles, key, slot);
                proof {
                    if pre.slots_accounted() {
                        assert forall|p: int, l: int|
                            1 <= p < self.pile_count() && 0 <= l < TILES_PER_PILE implies #[trigger]
                        self.slot_accounted(((p as usize, l as u32))) by {
                            let s = ((p as usize, l as u32));
                            if s == slot {
                                assert(self.tile_map().contains_key(key));
                            } else if old_free.len() > 0 {
                                assert(pre.slot_accounted(s));
                                if exists|k: TileKey|
                                    #[trigger] pre.tile_map().contains_key(k)
                                        && pre.tile_map()[k] == s {
                                    let k = choose|k: TileKey|
                                        #[trigger] pre.tile_map().contains_key(k)
                                            && pre.tile_map()[k] == s;
                                    assert(self.tile_map().contains_key(k));
                                } else {
                                    let i = choose|i: int|
                                        0 <= i < old_free.len() && old_free[i] == s;
                                    assert(i < old_free.len() - 1);
                                    assert(self.free_list()[i] == s);
                                }
                            } else {
                                // a fresh pile: its last slot was just bound to
                                // the key, the rest fill the free list
                                if p == pre.pile_count() {
                                    assert(self.free_list()[l] == s);
                                } else {
                                    assert(pre.slot_accounted(s));
                                    if exists|k: TileKey|
                                        #[trigger] pre.tile_map().contains_key(k)
                                            && pre.tile_map()[k] == s {
                                        let k = choose|k: TileKey|
                                            #[trigger] pre.tile_map().contains_key(k)
                                                && pre.tile_map()[k] == s;
                                        assert(self.tile_map().contains_key(k));
                                    }
                                }
                            }
                        }
                    }
                }
                Tile {
                    id: TileId { image_layer, index, pile_index: slot.0, pile_layer: slot.1 },
                }
            },
        }
    }

    /// The tile-grid dimensions of an image of the given pixel size.
    pub fn calc_tile_count(image_size: UVec2) -> (count: UVec2)
        ensures
            count.x == tiles_across(image_size.x),
            count.y == tiles_across(image_size.y),
    {
        UVec2 {
            x: div_ceil_u32(image_size.x, crate::TILE_SIZE),
            y: div_ceil_u32(image_size.y, crate::TILE_SIZE),
        }
    }

    /// Decompose a `width × height` source image of `image_layer` into
    /// tile-sized chunks (trailing-edge chunks are smaller), allocate a slot
    /// for every grid tile not yet resident, and return one copy command per
    /// grid tile. The application stages each chunk's pixels and issues the
    /// copies in one command batch. Pixels of a slot beyond a partial edge
    /// chunk keep whatever was previously resident.
    pub fn upload_image(&mut self, image_layer: LayerId, width: u32, height: u32) -> (plan: Vec<
        TileCopy,
    >)
        requires
            old(self).wf(),
            1 <= width,
            1 <= height,
            image_layer@ != 0,
            old(self).pile_count() + tiles_across(width) * tiles_across(height) <= usize::MAX,
        ensures
            final(self).wf(),
            forall|a: u32, b: u32|
                a < tiles_across(width) && b < tiles_across(height)
                    ==> #[trigger] final(self).tile_map().contains_key((image_layer@, a, b)),
            forall|k: TileKey|
                #[trigger] old(self).tile_map().contains_key(k) ==> final(self).tile_map().contains_key(k) && final(self).tile_map()[k] == old(self).tile_map()[k],
            forall|k: TileKey|
                #[trigger] final(self).tile_map().contains_key(k) ==> old(self).tile_map().contains_key(k) || (k.0 == image_layer@ && k.1 < tiles_across(width)
                    && k.2 < tiles_across(height)),
            plan@.len() == tiles_across(width) * tiles_across(height),
            forall|i: int|
                0 <= i < plan@.len() ==> upload_copy_ok(
                    *final(self),
                    image_layer,
                    width,
                    height,
                    #[trigger] plan@[i],
                ),
            forall|i: int, j: int|
                0 <= i < j < plan@.len() ==> plan@[i].tile.index != plan@[j].tile.index,
            forall|a: u32, b: u32|
                a < tiles_across(width) && b < tiles_across(height) ==> #[trigger] plan_covers(
                    plan@,
                    a,
                    b,
                ),
            single_pile_upload(*old(self), image_layer, width, height) ==> {
                &&& final(self).pile_count() == old(self).pile_count() + 1
                &&& forall|a: u32, b: u32|
                    a < tiles_across(width) && b < tiles_across(height)
                        ==> (#[trigger] final(self).tile_map()[(image_layer@, a, b)]).0 == old(self).pile_count()
            },
            old(self).slots_accounted() ==> final(self).slots_accounted(),
    {
        let count = Self::calc_tile_count(UVec2 { x: width, y: height });
        let gx = count.x;
        let gy = count.y;
        proof {
            crate::math::lemma_div_ceil_bounds(width as int, crate::TILE_SIZE as int);
            crate::math::lemma_div_ceil_bounds(height as int, crate::TILE_SIZE as int);
        }
        let mut plan: Vec<TileCopy> = Vec::new();
        let ghost h = single_pile_upload(*old(self), image_layer, width, height);
        let ghost base = old(self).pile_count();
        let mut x: u32 = 0;
        while x < gx
            invariant
                self.wf(),
                old(self).wf(),
                gx == tiles_across(width),
                gy == tiles_across(height),
                1 <= gx,
                1 <= gy,
                x <= gx,
                1 <= width,
                1 <= height,
                image_layer@ != 0,
                base == old(self).pile_count(),
                base + gx * gy <= usize::MAX,
                plan@.len() == x * gy,
                self.pile_count() >= base,
                self.pile_count() <= base + plan@.len(),
                old(self).slots_accounted() ==> self.slots_accounted(),
                forall|k: TileKey|
                    #[trigger] old(self).tile_map().contains_key(k) ==> self.tile_map().contains_key(
                        k,
                    ) && self.tile_map()[k] == old(self).tile_map()[k],
                forall|k: TileKey|
                    #[trigger] self.tile_map().contains_key(k) ==> old(self).tile_map().contains_key(k) || (k.0 == image_layer@ && k.1 < gx && k.2 < gy
                        && lex_before(k.1, k.2, x, 0)),
                forall|a: u32, b: u32|
                    a < gx && b < gy && lex_before(a, b, x, 0)
                        ==> #[trigger] self.tile_map().contains_key((image_layer@, a, b)),
                forall|i: int|
                    0 <= i < plan@.len() ==> upload_copy_ok(
                        *self,
                        image_layer,
                        width,
                        height,
                        #[trigger] plan@[i],
                    ),
                forall|i: int|
                    0 <= i < plan@.len() ==> lex_before(
                        (#[trigger] plan@[i]).tile.index.x,
                        plan@[i].tile.index.y,
                        x,
                        0,
                    ),
                forall|i: int, j: int|
                    0 <= i < j < plan@.len() ==> plan@[i].tile.index != plan@[j].tile.index,
                forall|a: u32, b: u32|
                    a < gx && b < gy && lex_before(a, b, x, 0) ==> #[trigger] plan_covers(
                        plan@,
                        a,
                        b,
                    ),
                h == single_pile_upload(*old(self), image_layer, width, height),
                h && plan@.len() == 0 ==> *self == *old(self),
                h && plan@.len() > 0 ==> {
                    &&& self.pile_count() == base + 1
                    &&& plan@.len() <= TILES_PER_PILE
                    &&& self.free_list().len() == TILES_PER_PILE - plan@.len()
                    &&& forall|i: int|
                        0 <= i < self.free_list().len() ==> #[trigger] self.free_list()[i] == ((
                        base as usize,
                        i as u32,
                        ))
                    &&& forall|i: int|
                        0 <= i < plan@.len() ==> (#[trigger] plan@[i]).tile.pile_index == base
                },
            decreases gx - x,
        {
            let mut y: u32 = 0;
            while y < gy
                invariant
                    self.wf(),
                    old(self).wf(),
                    gx == tiles_across(width),
                    gy == tiles_across(height),
                    1 <= gx,
                    1 <= gy,
                    x < gx,
                    y <= gy,
                    1 <= width,
                    1 <= height,
                    image_layer@ != 0,
                    base == old(self).pile_count(),
                    base + gx * gy <= usize::MAX,
                    plan@.len() == x * gy + y,
                    self.pile_count() >= base,
                    self.pile_count() <= base + plan@.len(),
                    old(self).slots_accounted() ==> self.slots_accounted(),
                    forall|k: TileKey|
                        #[trigger] old(self).tile_map().contains_key(k)
                            ==> self.tile_map().contains_key(k) && self.tile_map()[k] == old(self).tile_map()[k],
                    forall|k: TileKey|
                        #[trigger] self.tile_map().contains_key(k) ==> old(self).tile_map().contains_key(k) || (k.0 == image_layer@ && k.1 < gx && k.2 < gy
                            && lex_before(k.1, k.2, x, y)),
                    forall|a: u32, b: u32|
                        a < gx && b < gy && lex_before(a, b, x, y)
                            ==> #[trigger] self.tile_map().contains_key((image_layer@, a, b)),
                    forall|i: int|
                        0 <= i < plan@.len() ==> upload_copy_ok(
                            *self,
                            image_layer,
                            width,
                            height,
                            #[trigger] plan@[i],
                        ),
                    forall|i: int|
                        0 <= i < plan@.len() ==> lex_before(
                            (#[trigger] plan@[i]).tile.index.x,
                            plan@[i].tile.index.y,
                            x,
                            y,
                        ),
                    forall|i: int, j: int|
                        0 <= i < j < plan@.len() ==> plan@[i].tile.index != plan@[j].tile.index,
                    forall|a: u32, b: u32|
                        a < gx && b < gy && lex_before(a, b, x, y) ==> #[trigger] plan_covers(
                            plan@,
                            a,
                            b,
                        ),
                    h == single_pile_upload(*old(self), image_layer, width, height),
                    h && plan@.len() == 0 ==> *self == *old(self),
                    h && plan@.len() > 0 ==> {
                        &&& self.pile_count() == base + 1
                        &&& plan@.len() <= TILES_PER_PILE
                        &&& self.free_list().len() == TILES_PER_PILE - plan@.len()
                        &&& forall|i: int|
                            0 <= i < self.free_list().len() ==> #[trigger] self.free_list()[i] == ((
                            base as usize,
                            i as u32,
                            ))
                        &&& forall|i: int|
                            0 <= i < plan@.len() ==> (#[trigger] plan@[i]).tile.pile_index == base
                    },
                decreases gy - y,
            {
                proof {
                    crate::math::lemma_div_ceil_bounds(width as int, crate::TILE_SIZE as int);
                    crate::math::lemma_div_ceil_bounds(height as int, crate::TILE_SIZE as int);
                    vstd::arithmetic::mul::lemma_mul_inequality(
                        x as int,
                        gx - 1,
                        crate::TILE_SIZE as int,
                    );
                    vstd::arithmetic::mul::lemma_mul_inequality(
                        y as int,
                        gy - 1,
                        crate::TILE_SIZE as int,
                    );
                    assert(x * gy + y < gx * gy) by (nonlinear_arith)
                        requires
                            0 <= x < gx,
                            0 <= y < gy,
                    ;
                }
                let ox = x * crate::TILE_SIZE;
                let oy = y * crate::TILE_SIZE;
                let cw = if width - ox >= crate::TILE_SIZE {
                    crate::TILE_SIZE
                } else {
                    width - ox
                };
                let ch = if height - oy >= crate::TILE_SIZE {
                    crate::TILE_SIZE
                } else {
                    height - oy
                };
                let ghost pre = *self;
                let ghost prev_plan = plan@;
                let t = self.get_tile_mut(image_layer, UVec2 { x, y });
                plan.push(TileCopy { tile: t.id, origin: UVec2 { x: ox, y: oy }, size: UVec2 { x: cw, y: ch } });
                proof {
                    assert forall|i: int| 0 <= i < plan@.len() implies upload_copy_ok(
                        *self,
                        image_layer,
                        width,
                        height,
                        #[trigger] plan@[i],
                    ) by {
                        if i < plan@.len() - 1 {
                            assert(upload_copy_ok(pre, image_layer, width, height, plan@[i]));
                            assert(plan@[i].tile.index != (UVec2 { x, y }));
                        }
                    }
                    if h {
                        assert(!old(self).tile_map().contains_key((image_layer@, x, y)));
                        assert(!pre.tile_map().contains_key((image_layer@, x, y)));
                    }
                    assert forall|a: u32, b: u32|
                        a < gx && b < gy && lex_before(a, b, x, (y + 1) as u32) implies #[trigger] plan_covers(
                        plan@,
                        a,
                        b,
                    ) by {
                        if lex_before(a, b, x, y) {
                            assert(plan_covers(prev_plan, a, b));
                            let i = choose|i: int|
                                0 <= i < prev_plan.len() && #[trigger] prev_plan[i].tile.index
                                    == (UVec2 { x: a, y: b });
                            assert(plan@[i].tile.index == (UVec2 { x: a, y: b }));
                        } else {
                            assert(plan@[plan@.len() - 1].tile.index == (UVec2 { x: a, y: b }));
                        }
                    }
                }
                y = y + 1;
            }
            proof {
                assert(plan@.len() == x * gy + gy);
                assert(x * gy + gy == (x + 1) * gy) by (nonlinear_arith);
                assert forall|a: u32, b: u32|
                    a < gx && b < gy && lex_before(a, b, (x + 1) as u32, 0) implies #[trigger] plan_covers(
                    plan@,
                    a,
                    b,
                ) by {
                    assert(lex_before(a, b, x, gy));
                }
                assert forall|a: u32, b: u32|
                    a < gx && b < gy && lex_before(a, b, (x + 1) as u32, 0) implies #[trigger] self.tile_map().contains_key(
                    (image_layer@, a, b),
                ) by {
                    assert(lex_before(a, b, x, gy));
                }
            }
            x = x + 1;
        }
        proof {
            assert forall|a: u32, b: u32| a < gx && b < gy implies #[trigger] plan_covers(
                plan@,
                a,
                b,
            ) by {
                assert(lex_before(a, b, gx, 0));
            }
            assert forall|a: u32, b: u32|
                a < gx && b < gy implies #[trigger] self.tile_map().contains_key(
                (image_layer@, a, b),
            ) by {
                assert(lex_before(a, b, gx, 0));
            }
            if single_pile_upload(*old(self), image_layer, width, height) {
                assert(plan@.len() >= 1) by {
                    assert(gx * gy >= 1) by (nonlinear_arith)
                        requires
                            gx >= 1,
                            gy >= 1,
                    ;
                }
                assert forall|a: u32, b: u32|
                    a < tiles_across(width) && b < tiles_across(height) implies (
                #[trigger] self.tile_map()[(image_layer@, a, b)]).0 == old(self).pile_count() by {
                    assert(plan_covers(plan@, a, b));
                    let i = choose|i: int|
                        0 <= i < plan@.len() && #[trigger] plan@[i].tile.index == (UVec2 {
                            x: a,
                            y: b,
                        });
                    assert(upload_copy_ok(*self, image_layer, width, height, plan@[i]));
                    assert(plan@[i].tile.pile_index == base);
                }
            }
        }
        plan
    }

    /// Read-only lookup: resolves a tile key to its resident tile, or to a
    /// sentinel-backed tile carrying the requested coordinate. Never
    /// allocates.
    pub fn get_tile(&self, image_layer: LayerId, index: UVec2) -> (t: Tile)
        requires
            self.wf(),
        ensures
            t.id.index == index,
            self.resolves(image_layer, t.id),
    {
        let key = (image_layer.value(), index.x, index.y);
        match index_get(&self.tiles, key) {
            Some(slot) => Tile {
                id: TileId {
                    image_layer,
                    index,
                    pile_index: slot.0,
                    pile_layer: slot.1,
                },
            },
            None => Tile {
                id: TileId {
                    image_layer: Id::from_u128(0),
                    index,
                    pile_index: 0,
                    pile_layer: 0,
                },
            },
        }
    }

    /// Every tile of every group resolves per `resolves`, lies in the
    /// covered coordinate range and inside the grid, sits in its group's
    /// pile, and its slot indices are within the created piles.
    pub open spec fn group_tile_ok(
        self,
        image_layer: LayerId,
        pixel_rect: URect,
        total_tile_count: UVec2,
        pile_index: usize,
        t: TileId,
    ) -> bool {
        &&& self.resolves(image_layer, t)
        &&& visible_min_x(pixel_rect) <= t.index.x <= visible_max_x(pixel_rect, total_tile_count)
        &&& visible_min_y(pixel_rect) <= t.index.y <= visible_max_y(pixel_rect, total_tile_count)
        &&& t.index.x < total_tile_count.x
        &&& t.index.y < total_tile_count.y
        &&& t.pile_index == pile_index
        &&& t.pile_index < self.pile_count()
        &&& t.pile_layer < TILES_PER_PILE
    }

    /// Resolve the tiles drawn for a viewport: every grid coordinate in the
    /// covered range — the rectangle's tile span, clamped to the grid — is
    /// looked up read-only and the results are grouped by pile, one group
    /// per pile, each coordinate exactly once. A rectangle lying past the
    /// grid covers no coordinate. Never allocates.
    #[verifier::rlimit(60)]
    pub fn get_tile_views(
        &self,
        pixel_rect: URect,
        total_tile_count: UVec2,
        image_layer: LayerId,
    ) -> (groups: Vec<GroupedTileViews>)
        requires
            self.wf(),
            1 <= total_tile_count.x,
            1 <= total_tile_count.y,
            pixel_rect.x + pixel_rect.width <= u32::MAX,
            pixel_rect.y + pixel_rect.height <= u32::MAX,
        ensures
            forall|g: int, i: int|
                0 <= g < groups@.len() && 0 <= i < groups@[g].tiles@.len()
                    ==> self.group_tile_ok(
                    image_layer,
                    pixel_rect,
                    total_tile_count,
                    groups@[g].pile_index,
                    #[trigger] groups@[g].tiles@[i],
                ),
            forall|g1: int, g2: int|
                0 <= g1 < g2 < groups@.len() ==> groups@[g1].pile_index != groups@[g2].pile_index,
            forall|g1: int, i1: int, g2: int, i2: int|
                0 <= g1 < groups@.len() && 0 <= i1 < groups@[g1].tiles@.len() && 0 <= g2
                    < groups@.len() && 0 <= i2 < groups@[g2].tiles@.len() && (g1 != g2 || i1 != i2)
                    ==> (#[trigger] groups@[g1].tiles@[i1]).index
                    != (#[trigger] groups@[g2].tiles@[i2]).index,
            forall|a: u32, b: u32|
                visible_min_x(pixel_rect) <= a <= visible_max_x(pixel_rect, total_tile_count)
                    && visible_min_y(pixel_rect) <= b <= visible_max_y(
                    pixel_rect,
                    total_tile_count,
                ) ==> #[trigger] groups_cover(groups@, a, b),
    {
        let min_x = pixel_rect.x / crate::TILE_SIZE;
        let min_y = pixel_rect.y / crate::TILE_SIZE;
        let cx = div_ceil_u32(pixel_rect.x + pixel_rect.width, crate::TILE_SIZE);
        let cy = div_ceil_u32(pixel_rect.y + pixel_rect.height, crate::TILE_SIZE);
        let max_x = if cx <= total_tile_count.x - 1 {
            cx
        } else {
            total_tile_count.x - 1
        };
        let max_y = if cy <= total_tile_count.y - 1 {
            cy
        } else {
            total_tile_count.y - 1
        };
        let flat = self.resolve_covered(image_layer, min_x, min_y, max_x, max_y);
        let groups = Self::group_by_pile(&flat);
        proof {
            assert forall|g: int, i: int|
                0 <= g < groups@.len() && 0 <= i < groups@[g].tiles@.len() implies self.group_tile_ok(
                image_layer,
                pixel_rect,
                total_tile_count,
                groups@[g].pile_index,
                #[trigger] groups@[g].tiles@[i],
            ) by {
                let t = groups@[g].tiles@[i];
                assert(among_tiles(flat@, flat@.len() as int, t));
                let j = choose|j: int| 0 <= j < flat@.len() && t == #[trigger] flat@[j];
                assert(self.resolves(image_layer, flat@[j]));
            }
            assert forall|a: u32, b: u32|
                visible_min_x(pixel_rect) <= a <= visible_max_x(pixel_rect, total_tile_count)
                    && visible_min_y(pixel_rect) <= b <= visible_max_y(
                    pixel_rect,
                    total_tile_count,
                ) implies #[trigger] groups_cover(groups@, a, b) by {
                assert(tiles_cover(flat@, a, b));
                let j = choose|j: int|
                    0 <= j < flat@.len() && (#[trigger] flat@[j]).index == (UVec2 { x: a, y: b });
                assert(in_groups(groups@, flat@[j]));
                let (g, i) = choose|g: int, i: int|
                    0 <= g < groups@.len() && 0 <= i < groups@[g].tiles@.len() && flat@[j]
                        == #[trigger] groups@[g].tiles@[i];
                assert(groups@[g].tiles@[i].index == (UVec2 { x: a, y: b }));
            }
        }
        groups
    }

    /// Resolve, read-only, every tile of the inclusive coordinate box
    /// `[min_x, max_x] × [min_y, max_y]` (no tile when the box is empty):
    /// each coordinate exactly once.
    fn resolve_covered(
        &self,
        image_layer: LayerId,
        min_x: u32,
        min_y: u32,
        max_x: u32,
        max_y: u32,
    ) -> (flat: Vec<TileId>)
        requires
            self.wf(),
            max_x < u32::MAX,
            max_y < u32::MAX,
        ensures
            forall|k: int|
                0 <= k < flat@.len() ==> {
                    let t = #[trigger] flat@[k];
                    &&& self.resolves(image_layer, t)
                    &&& min_x <= t.index.x <= max_x
                    &&& min_y <= t.index.y <= max_y
                },
            forall|k1: int, k2: int|
                0 <= k1 < k2 < flat@.len() ==> flat@[k1].index != flat@[k2].index,
            forall|a: u32, b: u32|
                min_x <= a <= max_x && min_y <= b <= max_y ==> #[trigger] tiles_cover(flat@, a, b),
    {
        let mut flat: Vec<TileId> = Vec::new();
        if min_x <= max_x && min_y <= max_y {
            let mut x = min_x;
            while x <= max_x
                invariant
                    self.wf(),
                    min_x <= x <= max_x + 1,
                    min_y <= max_y,
                    max_x < u32::MAX,
                    max_y < u32::MAX,
                    forall|k: int|
                        0 <= k < flat@.len() ==> {
                            let t = #[trigger] flat@[k];
                            &&& self.resolves(image_layer, t)
                            &&& min_x <= t.index.x <= max_x
                            &&& min_y <= t.index.y <= max_y
                            &&& lex_before(t.index.x, t.index.y, x, min_y)
                        },
                    forall|k1: int, k2: int|
                        0 <= k1 < k2 < flat@.len() ==> flat@[k1].index != flat@[k2].index,
                    forall|a: u32, b: u32|
                        min_x <= a <= max_x && min_y <= b <= max_y && lex_before(a, b, x, min_y)
                            ==> exists|k: int|
                            0 <= k < flat@.len() && (#[trigger] flat@[k]).index == (UVec2 {
                                x: a,
                                y: b,
                            }),
                decreases max_x + 1 - x,
            {
                let mut y = min_y;
                while y <= max_y
                    invariant
                        self.wf(),
                        min_x <= x <= max_x,
                        min_y <= y <= max_y + 1,
                        max_x < u32::MAX,
                        max_y < u32::MAX,
                        forall|k: int|
                            0 <= k < flat@.len() ==> {
                                let t = #[trigger] flat@[k];
                                &&& self.resolves(image_layer, t)
                                &&& min_x <= t.index.x <= max_x
                                &&& min_y <= t.index.y <= max_y
                                &&& lex_before(t.index.x, t.index.y, x, y)
                            },
                        forall|k1: int, k2: int|
                            0 <= k1 < k2 < flat@.len() ==> flat@[k1].index != flat@[k2].index,
                        forall|a: u32, b: u32|
                            min_x <= a <= max_x && min_y <= b <= max_y && lex_before(a, b, x, y)
                                ==> exists|k: int|
                                0 <= k < flat@.len() && (#[trigger] flat@[k]).index == (UVec2 {
                                    x: a,
                                    y: b,
                                }),
                    decreases max_y + 1 - y,
                {
                    let ghost prev_flat = flat@;
                    let t = self.get_tile(image_layer, UVec2 { x, y });
                    flat.push(t.id);
                    proof {
                        assert forall|a: u32, b: u32|
                            min_x <= a <= max_x && min_y <= b <= max_y && #[trigger] lex_before(
                                a,
                                b,
                                x,
                                (y + 1) as u32,
                            ) implies exists|k: int|
                            0 <= k < flat@.len() && (#[trigger] flat@[k]).index == (UVec2 {
                                x: a,
                                y: b,
                            }) by {
                            if lex_before(a, b, x, y) {
                                let k = choose|k: int|
                                    0 <= k < prev_flat.len() && (#[trigger] prev_flat[k]).index
                                        == (UVec2 { x: a, y: b });
                                assert(flat@[k].index == (UVec2 { x: a, y: b }));
                            } else {
                                assert(flat@[flat@.len() - 1].index == (UVec2 { x: a, y: b }));
                            }
                        }
                    }
                    y = y + 1;
                }
                proof {
                    assert forall|a: u32, b: u32|
                        min_x <= a <= max_x && min_y <= b <= max_y && #[trigger] lex_before(
                            a,
                            b,
                            (x + 1) as u32,
                            min_y,
                        ) implies exists|k: int|
                        0 <= k < flat@.len() && (#[trigger] flat@[k]).index == (UVec2 {
                            x: a,
                            y: b,
                        }) by {
                        assert(lex_before(a, b, x, (max_y + 1) as u32));
                    }
                    assert forall|k: int| 0 <= k < flat@.len() implies lex_before(
                        (#[trigger] flat@[k]).index.x,
                        flat@[k].index.y,
                        (x + 1) as u32,
                        min_y,
                    ) by {
                        assert(lex_before(flat@[k].index.x, flat@[k].index.y, x, (max_y + 1) as u32));
                    }
                }
                x = x + 1;
            }
            proof {
                assert forall|a: u32, b: u32|
                    min_x <= a <= max_x && min_y <= b <= max_y implies #[trigger] tiles_cover(
                    flat@,
                    a,
                    b,
                ) by {
                    assert(lex_before(a, b, x, min_y));
                }
            }
        }
        flat
    }

    /// Gather the tiles into one group per pile index, keeping each tile
    /// exactly once. Requires the tiles' grid coordinates to be pairwise
    /// distinct; the groups then hold pairwise distinct coordinates too.
    #[verifier::rlimit(100)]
    fn group_by_pile(flat: &Vec<TileId>) -> (groups: Vec<GroupedTileViews>)
        requires
            forall|k1: int, k2: int|
                0 <= k1 < k2 < flat@.len() ==> flat@[k1].index != flat@[k2].index,
        ensures
            forall|g: int, i: int|
                0 <= g < groups@.len() && 0 <= i < groups@[g].tiles@.len()
                    ==> #[trigger] among_tiles(flat@, flat@.len() as int, groups@[g].tiles@[i]),
            forall|j: int|
                0 <= j < flat@.len() ==> in_groups(groups@, #[trigger] flat@[j]),
            forall|g: int, i: int|
                0 <= g < groups@.len() && 0 <= i < groups@[g].tiles@.len()
                    ==> (#[trigger] groups@[g].tiles@[i]).pile_index == groups@[g].pile_index,
            forall|g1: int, g2: int|
                0 <= g1 < g2 < groups@.len() ==> groups@[g1].pile_index != groups@[g2].pile_index,
            forall|g1: int, i1: int, g2: int, i2: int|
                0 <= g1 < groups@.len() && 0 <= i1 < groups@[g1].tiles@.len() && 0 <= g2
                    < groups@.len() && 0 <= i2 < groups@[g2].tiles@.len() && (g1 != g2 || i1 != i2)
                    ==> (#[trigger] groups@[g1].tiles@[i1]).index
                    != (#[trigger] groups@[g2].tiles@[i2]).index,
    {
        let mut groups: Vec<GroupedTileViews> = Vec::new();
        let mut k: usize = 0;
        while k < flat.len()
            invariant
                k <= flat@.len(),
                forall|k1: int, k2: int|
                    0 <= k1 < k2 < flat@.len() ==> flat@[k1].index != flat@[k2].index,
                forall|g: int, i: int|
                    0 <= g < groups@.len() && 0 <= i < groups@[g].tiles@.len()
                        ==> #[trigger] among_tiles(flat@, k as int, groups@[g].tiles@[i]),
                forall|g: int, i: int|
                    0 <= g < groups@.len() && 0 <= i < groups@[g].tiles@.len()
                        ==> (#[trigger] groups@[g].tiles@[i]).pile_index == groups@[g].pile_index,
                forall|g1: int, g2: int|
                    0 <= g1 < g2 < groups@.len() ==> groups@[g1].pile_index
                        != groups@[g2].pile_index,
                forall|g1: int, i1: int, g2: int, i2: int|
                    0 <= g1 < groups@.len() && 0 <= i1 < groups@[g1].tiles@.len() && 0 <= g2
                        < groups@.len() && 0 <= i2 < groups@[g2].tiles@.len() && (g1 != g2 || i1
                        != i2) ==> (#[trigger] groups@[g1].tiles@[i1]).index
                        != (#[trigger] groups@[g2].tiles@[i2]).index,
                forall|j: int| 0 <= j < k ==> in_groups(groups@, #[trigger] flat@[j]),
            decreases flat@.len() - k,
        {
            let t = flat[k];
            let mut gi: usize = groups.len();
            let mut j: usize = 0;
            while j < groups.len()
                invariant
                    j <= groups@.len(),
                    gi <= groups@.len(),
                    gi == groups@.len() ==> forall|q: int|
                        0 <= q < j ==> (#[trigger] groups@[q]).pile_index != t.pile_index,
                    gi < groups@.len() ==> groups@[gi as int].pile_index == t.pile_index,
                decreases groups@.len() - j,
            {
                if groups[j].pile_index == t.pile_index {
                    gi = j;
                }
                j = j + 1;
            }
            let ghost prev_groups = groups@;
            let ghost new_g: int = if gi == groups.len() {
                prev_groups.len() as int
            } else {
                gi as int
            };
            let ghost new_i: int = if gi == groups.len() {
                0
            } else {
                prev_groups[gi as int].tiles@.len() as int
            };
            if gi == groups.len() {
                let mut tiles: Vec<TileId> = Vec::new();
                tiles.push(t);
                groups.push(GroupedTileViews { pile_index: t.pile_index, tiles });
            } else {
                let mut grp = groups.remove(gi);
                grp.tiles.push(t);
                let ghost widened = grp;
                groups.insert(gi, grp);
                proof {
                    assert(groups@ =~= prev_groups.update(gi as int, widened));
                }
            }
            proof {
                let gnew = groups@;
                assert(gnew[new_g].tiles@[new_i] == flat@[k as int]);
                assert forall|g: int, i: int|
                    0 <= g < gnew.len() && 0 <= i < gnew[g].tiles@.len() && !(g == new_g && i
                        == new_i) implies 0 <= g < prev_groups.len() && 0 <= i < prev_groups[g].tiles@.len()
                    && (#[trigger] gnew[g].tiles@[i]) == prev_groups[g].tiles@[i] by {}
                assert forall|g: int, i: int|
                    0 <= g < gnew.len() && 0 <= i < gnew[g].tiles@.len() implies #[trigger] among_tiles(
                    flat@,
                    k + 1,
                    gnew[g].tiles@[i],
                ) by {
                    if g == new_g && i == new_i {
                        assert(gnew[g].tiles@[i] == #[trigger] flat@[k as int]);
                    } else {
                        assert(among_tiles(flat@, k as int, prev_groups[g].tiles@[i]));
                        let j2 = choose|j2: int|
                            0 <= j2 < k && prev_groups[g].tiles@[i] == #[trigger] flat@[j2];
                        assert(gnew[g].tiles@[i] == flat@[j2]);
                    }
                }
                assert forall|g1: int, i1: int, g2: int, i2: int|
                    0 <= g1 < gnew.len() && 0 <= i1 < gnew[g1].tiles@.len() && 0 <= g2 < gnew.len()
                        && 0 <= i2 < gnew[g2].tiles@.len() && (g1 != g2 || i1 != i2) implies (
                #[trigger] gnew[g1].tiles@[i1]).index != (#[trigger] gnew[g2].tiles@[i2]).index by {
                    let t1 = gnew[g1].tiles@[i1];
                    let t2 = gnew[g2].tiles@[i2];
                    let new1 = g1 == new_g && i1 == new_i;
                    let new2 = g2 == new_g && i2 == new_i;
                    if new1 && new2 {
                        assert(false);
                    } else if new1 {
                        assert(among_tiles(flat@, k as int, prev_groups[g2].tiles@[i2]));
                        let j2 = choose|j2: int|
                            0 <= j2 < k && prev_groups[g2].tiles@[i2] == #[trigger] flat@[j2];
                        assert(t2 == flat@[j2]);
                        assert(t1 == flat@[k as int]);
                    } else if new2 {
                        assert(among_tiles(flat@, k as int, prev_groups[g1].tiles@[i1]));
                        let j1 = choose|j1: int|
                            0 <= j1 < k && prev_groups[g1].tiles@[i1] == #[trigger] flat@[j1];
                        assert(t1 == flat@[j1]);
                        assert(t2 == flat@[k as int]);
                    }
                }
                assert forall|j: int| 0 <= j < k + 1 implies in_groups(
                    gnew,
                    #[trigger] flat@[j],
                ) by {
                    if j < k {
                        assert(in_groups(prev_groups, flat@[j]));
                        let (g, i) = choose|g: int, i: int|
                            0 <= g < prev_groups.len() && 0 <= i < prev_groups[g].tiles@.len()
                                && flat@[j] == #[trigger] prev_groups[g].tiles@[i];
                        if g == new_g && i == new_i {
                            assert(false);
                        } else {
                            assert(flat@[j] == gnew[g].tiles@[i]);
                        }
                    } else {
                        assert(flat@[j] == gnew[new_g].tiles@[new_i]);
                    }
                }
            }
            k = k + 1;
        }
        groups
    }
}

/// No two distinct tile keys ever resolve to the same physical slot: the
/// key→slot mapping of a well-formed storage is injective.
pub proof fn lemma_slot_injective(s: GpuTileStorage, k1: TileKey, k2: TileKey)
    requires
        s.wf(),
        s.tile_map().contains_key(k1),
        s.tile_map().contains_key(k2),
        k1 != k2,
    ensures
        s.tile_map()[k1] != s.tile_map()[k2],
{
}

/// Once a layer's whole grid is resident — as one `upload_image` of the
/// layer leaves it — every coordinate of the grid resolves to a non-sentinel
/// tile of that layer, and the resolution is a function of the storage state
/// alone: two lookups of the same coordinate agree.
pub proof fn lemma_uploaded_layer_lookup_stable(
    s: GpuTileStorage,
    image_layer: LayerId,
    width: u32,
    height: u32,
    index: UVec2,
    t1: TileId,
    t2: TileId,
)
    requires
        s.wf(),
        image_layer@ != 0,
        forall|a: u32, b: u32|
            a < tiles_across(width) && b < tiles_across(height)
                ==> #[trigger] s.tile_map().contains_key((image_layer@, a, b)),
        index.x < tiles_across(width),
        index.y < tiles_across(height),
        s.resolves(image_layer, t1),
        t1.index == index,
        s.resolves(image_layer, t2),
        t2.index == index,
    ensures
        t1.image_layer == image_layer,
        1 <= t1.pile_index,
        t1 == t2,
{
    assert(s.tile_map().contains_key((image_layer@, index.x, index.y)));
}

/// From fresh storage, an upload whose grid fits one pile's capacity is a
/// single-pile upload: combined with `upload_image`'s contract, exactly one
/// pile is created and every tile of the layer draws from it.
pub proof fn lemma_fresh_storage_single_pile_upload(
    pre: GpuTileStorage,
    image_layer: LayerId,
    width: u32,
    height: u32,
)
    requires
        image_layer@ != 0,
        pre.free_list().len() == 0,
        pre.tile_map() == Map::<TileKey, PhysicalTileSlot>::empty().insert(
            empty_key(),
            sentinel_slot(),
        ),
        tiles_across(width) * tiles_across(height) <= TILES_PER_PILE,
    ensures
        single_pile_upload(pre, image_layer, width, height),
{
    assert forall|a: u32, b: u32|
        a < tiles_across(width) && b < tiles_across(height) implies !#[trigger] pre.tile_map().contains_key(
        (image_layer@, a, b),
    ) by {
        assert((image_layer@, a, b) != empty_key());
    }
}

/// The free slots left after the first `n` allocations from fresh storage:
/// the first allocation creates one pile, whose slots then serve the next
/// `TILES_PER_PILE - 1` allocations without further pile creation.
proof fn lemma_pile_growth_prefix(
    states: Seq<GpuTileStorage>,
    slots: Seq<PhysicalTileSlot>,
    n: int,
)
    requires
        1 <= n <= TILES_PER_PILE,
        n < states.len(),
        n <= slots.len(),
        states[0].pile_count() == 1,
        states[0].free_list().len() == 0,
        forall|m: int|
            0 <= m < slots.len() && m + 1 < states.len() ==> #[trigger] GpuTileStorage::slot_allocation(
                states[m],
                states[m + 1],
                slots[m],
            ),
    ensures
        states[n].pile_count() == 2,
        states[n].free_list().len() == TILES_PER_PILE - n,
    decreases n,
{
    let m = n - 1;
    assert(GpuTileStorage::slot_allocation(states[m], states[m + 1], slots[m]));
    if n > 1 {
        lemma_pile_growth_prefix(states, slots, m);
    }
}

/// Lazy pile growth: allocating `TILES_PER_PILE + 1` slots from fresh
/// storage (one reserved sentinel pile, nothing free) creates exactly two
/// piles, and the second is created lazily — at the last allocation, not
/// before. `states[n]` is the storage after `n` allocations, `slots[n]` the
/// slot that the `n+1`-th allocation returned.
pub proof fn lemma_lazy_pile_growth(states: Seq<GpuTileStorage>, slots: Seq<PhysicalTileSlot>)
    requires
        states.len() == TILES_PER_PILE + 2,
        slots.len() == TILES_PER_PILE + 1,
        states[0].pile_count() == 1,
        states[0].free_list().len() == 0,
        forall|m: int|
            0 <= m < slots.len() ==> #[trigger] GpuTileStorage::slot_allocation(
                states[m],
                states[m + 1],
                slots[m],
            ),
    ensures
        forall|n: int| 1 <= n <= TILES_PER_PILE ==> #[trigger] states[n].pile_count() == 2,
        states[TILES_PER_PILE + 1int].pile_count() == 3,
{
    assert forall|n: int| 1 <= n <= TILES_PER_PILE implies #[trigger] states[n].pile_count()
        == 2 by {
        lemma_pile_growth_prefix(states, slots, n);
    }
    lemma_pile_growth_prefix(states, slots, TILES_PER_PILE as int);
    let m = TILES_PER_PILE as int;
    assert(GpuTileStorage::slot_allocation(states[m], states[m + 1], slots[m]));
}

} // verus!
