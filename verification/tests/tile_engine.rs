use cyancia::id::Id;
use cyancia::image::{LayerId, Layer};
use cyancia::math::{URect, UVec2};
use cyancia::render::{NO_TILE, build_mapper, dispatch_workgroups, needs_resize};
use cyancia::tile::{GpuTileStorage, GroupedTileViews, TILES_PER_PILE, TileId};
use std::collections::HashSet;

fn layer(v: u128) -> LayerId {
    Id::from_u128(v)
}

fn collect_coords(groups: &[GroupedTileViews]) -> Vec<(u32, u32)> {
    let mut coords: Vec<(u32, u32)> = groups
        .iter()
        .flat_map(|g| g.tiles.iter().map(|t| (t.index.x, t.index.y)))
        .collect();
    coords.sort();
    coords
}

#[test]
fn missing_tile_resolves_to_sentinel_with_requested_coord() {
    let storage = GpuTileStorage::new();
    let t = storage.get_tile(layer(42), UVec2::new(3, 7));
    assert_eq!(t.id.index.x, 3);
    assert_eq!(t.id.index.y, 7);
    assert_eq!(t.id.image_layer.value(), 0);
    assert_eq!(t.id.pile_index, 0);
    assert_eq!(t.id.pile_layer, 0);
}

#[test]
fn get_tile_never_allocates() {
    let storage = GpuTileStorage::new();
    for x in 0..4 {
        for y in 0..4 {
            let t = storage.get_tile(layer(7), UVec2::new(x, y));
            assert_eq!(t.id.pile_index, 0);
        }
    }
    assert_eq!(storage.pile_total(), 1);
}

#[test]
fn uploaded_layer_requery_is_stable_and_non_sentinel() {
    let mut storage = GpuTileStorage::new();
    let id = layer(42);
    storage.upload_image(id, 600, 400);
    for x in 0..3 {
        for y in 0..2 {
            let a = storage.get_tile(id, UVec2::new(x, y));
            let b = storage.get_tile(id, UVec2::new(x, y));
            assert!(a.id.pile_index >= 1);
            assert_eq!(a.id.image_layer.value(), 42);
            assert_eq!(a.id, b.id);
        }
    }
}

#[test]
fn distinct_keys_never_share_a_slot() {
    let mut storage = GpuTileStorage::new();
    let first = Layer::new().id();
    let second = Layer::new().id();
    assert_ne!(first.value(), second.value());
    // overlapping grids of two layers
    storage.upload_image(first, 600, 400);
    storage.upload_image(second, 700, 500);
    let mut seen: HashSet<(usize, u32)> = HashSet::new();
    for x in 0..3 {
        for y in 0..2 {
            let t = storage.get_tile(first, UVec2::new(x, y));
            assert!(seen.insert((t.id.pile_index, t.id.pile_layer)));
        }
    }
    for x in 0..3 {
        for y in 0..2 {
            let t = storage.get_tile(second, UVec2::new(x, y));
            assert!(seen.insert((t.id.pile_index, t.id.pile_layer)));
        }
    }
}

#[test]
fn viewport_300_square_identity_covers_four_tiles() {
    let mut storage = GpuTileStorage::new();
    let id = layer(9);
    storage.upload_image(id, 300, 300);
    let total = GpuTileStorage::calc_tile_count(UVec2::new(300, 300));
    assert_eq!((total.x, total.y), (2, 2));
    let rect = URect { x: 0, y: 0, width: 300, height: 300 };
    let groups = storage.get_tile_views(rect, total, id);
    let coords = collect_coords(&groups);
    assert_eq!(coords, vec![(0, 0), (0, 1), (1, 0), (1, 1)]);
}

#[test]
fn viewport_past_layer_edge_clamps_to_grid() {
    let mut storage = GpuTileStorage::new();
    let id = layer(9);
    storage.upload_image(id, 300, 300);
    let total = GpuTileStorage::calc_tile_count(UVec2::new(300, 300));
    let rect = URect { x: 500, y: 0, width: 4000, height: 4000 };
    let groups = storage.get_tile_views(rect, total, id);
    for g in &groups {
        for t in &g.tiles {
            assert!(t.index.x < total.x);
            assert!(t.index.y < total.y);
        }
    }
    let coords = collect_coords(&groups);
    assert_eq!(coords, vec![(1, 0), (1, 1)]);
}

#[test]
fn viewport_entirely_past_grid_covers_nothing() {
    let storage = GpuTileStorage::new();
    let rect = URect { x: 5000, y: 5000, width: 10, height: 10 };
    let groups = storage.get_tile_views(rect, UVec2::new(2, 2), layer(1));
    assert_eq!(collect_coords(&groups), vec![]);
}

#[test]
fn second_pile_is_created_lazily_at_capacity_plus_one() {
    let mut storage = GpuTileStorage::new();
    assert_eq!(storage.pile_total(), 1);
    for _ in 0..TILES_PER_PILE {
        let (pile, slot) = storage.allocate_slot();
        assert_eq!(pile, 1);
        assert!(slot < TILES_PER_PILE);
        assert_eq!(storage.pile_total(), 2);
    }
    let (pile, _) = storage.allocate_slot();
    assert_eq!(pile, 2);
    assert_eq!(storage.pile_total(), 3);
}

#[test]
fn upload_600x400_allocates_six_tiles_from_one_pile() {
    let mut storage = GpuTileStorage::new();
    let id = layer(42);
    let plan = storage.upload_image(id, 600, 400);
    assert_eq!(plan.len(), 6);
    for copy in &plan {
        assert_eq!(copy.tile.pile_index, 1);
        assert_eq!(copy.tile.image_layer.value(), 42);
    }
    let mut coords: Vec<(u32, u32)> = plan.iter().map(|c| (c.tile.index.x, c.tile.index.y)).collect();
    coords.sort();
    assert_eq!(coords, vec![(0, 0), (0, 1), (1, 0), (1, 1), (2, 0), (2, 1)]);
    assert_eq!(storage.pile_total(), 2);
}

#[test]
fn upload_plan_chunks_clip_at_trailing_edges() {
    let mut storage = GpuTileStorage::new();
    let plan = storage.upload_image(layer(3), 600, 400);
    for copy in &plan {
        assert_eq!(copy.origin.x, copy.tile.index.x * 256);
        assert_eq!(copy.origin.y, copy.tile.index.y * 256);
        let expect_w = if copy.tile.index.x == 2 { 88 } else { 256 };
        let expect_h = if copy.tile.index.y == 1 { 144 } else { 256 };
        assert_eq!(copy.size.x, expect_w);
        assert_eq!(copy.size.y, expect_h);
    }
}

#[test]
fn reupload_reuses_the_same_slots() {
    let mut storage = GpuTileStorage::new();
    let id = layer(8);
    let first = storage.upload_image(id, 600, 400);
    let piles_after_first = storage.pile_total();
    let second = storage.upload_image(id, 600, 400);
    assert_eq!(storage.pile_total(), piles_after_first);
    let key = |c: &cyancia::tile::TileCopy| (c.tile.index.x, c.tile.index.y);
    for a in &first {
        let b = second.iter().find(|c| key(c) == key(a)).unwrap();
        assert_eq!(a.tile, b.tile);
    }
}

#[test]
fn get_tile_mut_is_idempotent_per_key() {
    let mut storage = GpuTileStorage::new();
    let id = layer(5);
    let a = storage.get_tile_mut(id, UVec2::new(1, 2));
    let piles = storage.pile_total();
    let b = storage.get_tile_mut(id, UVec2::new(1, 2));
    assert_eq!(a.id, b.id);
    assert_eq!(storage.pile_total(), piles);
}

#[test]
fn calc_tile_count_rounds_up() {
    let c = GpuTileStorage::calc_tile_count(UVec2::new(600, 400));
    assert_eq!((c.x, c.y), (3, 2));
    let c = GpuTileStorage::calc_tile_count(UVec2::new(256, 256));
    assert_eq!((c.x, c.y), (1, 1));
    let c = GpuTileStorage::calc_tile_count(UVec2::new(257, 1));
    assert_eq!((c.x, c.y), (2, 1));
    let c = GpuTileStorage::calc_tile_count(UVec2::new(0, 0));
    assert_eq!((c.x, c.y), (0, 0));
}

#[test]
fn mapper_holds_layers_at_cells_and_no_tile_elsewhere() {
    let tiles = vec![
        TileId { image_layer: layer(1), index: UVec2::new(0, 0), pile_index: 1, pile_layer: 5 },
        TileId { image_layer: layer(1), index: UVec2::new(1, 1), pile_index: 1, pile_layer: 9 },
    ];
    let group = GroupedTileViews { pile_index: 1, tiles };
    let mapper = build_mapper(&group, UVec2::new(2, 2));
    assert_eq!(mapper, vec![5, NO_TILE, NO_TILE, 9]);
}

#[test]
fn mappers_of_resolved_groups_partition_the_grid() {
    let mut storage = GpuTileStorage::new();
    let id = layer(11);
    storage.upload_image(id, 600, 400);
    let total = GpuTileStorage::calc_tile_count(UVec2::new(600, 400));
    let rect = URect { x: 0, y: 0, width: 600, height: 400 };
    let groups = storage.get_tile_views(rect, total, id);
    let mappers: Vec<Vec<u32>> = groups.iter().map(|g| build_mapper(g, total)).collect();
    for cell in 0..(total.x * total.y) as usize {
        let owners = mappers.iter().filter(|m| m[cell] != NO_TILE).count();
        assert_eq!(owners, 1);
    }
}

#[test]
fn dispatch_covers_target_in_16_pixel_workgroups() {
    let c = dispatch_workgroups(UVec2::new(300, 300));
    assert_eq!((c.x, c.y), (19, 19));
    let c = dispatch_workgroups(UVec2::new(512, 16));
    assert_eq!((c.x, c.y), (32, 1));
}

#[test]
fn surface_resizes_only_on_size_change() {
    assert!(needs_resize(None, UVec2::new(4, 4)));
    assert!(!needs_resize(Some(UVec2::new(4, 4)), UVec2::new(4, 4)));
    assert!(needs_resize(Some(UVec2::new(4, 8)), UVec2::new(4, 4)));
}

#[test]
fn from_image_uploads_the_whole_grid() {
    let mut storage = GpuTileStorage::new();
    let (l, plan) = Layer::from_image(600, 400, &mut storage);
    assert_ne!(l.id().value(), 0);
    assert_eq!((l.size.x, l.size.y), (600, 400));
    assert_eq!(plan.len(), 6);
    let t = storage.get_tile(l.id(), UVec2::new(2, 1));
    assert!(t.id.pile_index >= 1);
}

#[test]
fn exact_multiple_image_needs_no_clipping() {
    let mut storage = GpuTileStorage::new();
    let plan = storage.upload_image(layer(4), 512, 512);
    assert_eq!(plan.len(), 4);
    for copy in &plan {
        assert_eq!((copy.size.x, copy.size.y), (256, 256));
    }
}

#[test]
fn single_tile_grid_resolves_one_tile() {
    let mut storage = GpuTileStorage::new();
    let id = layer(6);
    storage.upload_image(id, 200, 200);
    let total = GpuTileStorage::calc_tile_count(UVec2::new(200, 200));
    assert_eq!((total.x, total.y), (1, 1));
    let rect = URect { x: 10, y: 10, width: 50, height: 50 };
    let groups = storage.get_tile_views(rect, total, id);
    assert_eq!(collect_coords(&groups), vec![(0, 0)]);
}
