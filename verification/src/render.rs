//! The compute-composite stage's mapping buffers and dispatch geometry.
//!
//! Each frame, the visible tiles are resolved and grouped by pile. For every
//! group the compositing pass uploads a dense mapping buffer that translates
//! a grid coordinate to the tile's array layer inside that pile; cells not
//! owned by the group hold [`NO_TILE`]. The compute shader samples
//! `pile[mapping[tile_of(pixel)]]` and must skip the write when the mapping
//! holds [`NO_TILE`]: the groups share one destination surface and dispatch
//! sequentially, so an unconditional write would stomp pixels already
//! composited by an earlier group. [`lemma_mapper_groups_disjoint`] states
//! that the skip makes the groups' writes disjoint.

use vstd::prelude::*;
use crate::math::{UVec2, div_ceil_spec, div_ceil_u32};
use crate::tile::{GroupedTileViews, TILES_PER_PILE};

verus! {

/// Mapping value for a cell that no tile of the group covers. The
/// compositing shader skips such cells.
pub const NO_TILE: u32 = u32::MAX;

/// Pixel edge length of one compositing workgroup.
pub const WORKGROUP_SIZE: u32 = 16;

/// The dense row-major cell of grid coordinate `(x, y)` in a mapping buffer
/// for a grid `total_x` tiles wide.
pub open spec fn cell_index(total_x: int, x: int, y: int) -> int {
    y * total_x + x
}

/// Some tile of the group sits at grid coordinate `(x, y)`.
pub open spec fn group_covers(group: GroupedTileViews, x: int, y: int) -> bool {
    exists|i: int|
        0 <= i < group.tiles@.len() && (#[trigger] group.tiles@[i]).index.x == x
            && group.tiles@[i].index.y == y
}

/// The mapping buffer of one group over the given tile grid: each covered
/// cell holds the tile's array layer, every other cell holds [`NO_TILE`].
pub open spec fn mapper_for(mapper: Seq<u32>, group: GroupedTileViews, total: UVec2) -> bool {
    &&& mapper.len() == total.x * total.y
    &&& forall|i: int|
        0 <= i < group.tiles@.len() ==> {
            let t = #[trigger] group.tiles@[i];
            mapper[cell_index(total.x as int, t.index.x as int, t.index.y as int)] == t.pile_layer
        }
    &&& forall|x: int, y: int|
        0 <= x < total.x && 0 <= y < total.y && !group_covers(group, x, y) ==> mapper[#[trigger]
        cell_index(total.x as int, x, y)] == NO_TILE
}

/// Distinct grid coordinates occupy distinct cells of the mapping buffer.
pub proof fn lemma_cell_index_injective(total_x: int, x1: int, y1: int, x2: int, y2: int)
    requires
        0 <= x1 < total_x,
        0 <= x2 < total_x,
        0 <= y1,
        0 <= y2,
        cell_index(total_x, x1, y1) == cell_index(total_x, x2, y2),
    ensures
        x1 == x2,
        y1 == y2,
{
    assert(x1 == x2 && y1 == y2) by (nonlinear_arith)
        requires
            0 <= x1 < total_x,
            0 <= x2 < total_x,
            0 <= y1,
            0 <= y2,
            y1 * total_x + x1 == y2 * total_x + x2,
    ;
}

/// Every cell of a grid coordinate lies inside the mapping buffer.
pub proof fn lemma_cell_index_bounds(total_x: int, total_y: int, x: int, y: int)
    requires
        0 <= x < total_x,
        0 <= y < total_y,
    ensures
        0 <= cell_index(total_x, x, y) < total_x * total_y,
{
    assert(0 <= y * total_x + x < total_x * total_y) by (nonlinear_arith)
        requires
            0 <= x < total_x,
            0 <= y < total_y,
    ;
}

/// Build one group's mapping buffer: initialize every cell to [`NO_TILE`],
/// then write each tile's array layer at its grid cell.
pub fn build_mapper(group: &GroupedTileViews, total_tile_count: UVec2) -> (mapper: Vec<u32>)
    requires
        total_tile_count.x * total_tile_count.y <= usize::MAX,
        forall|i: int|
            0 <= i < group.tiles@.len() ==> (#[trigger] group.tiles@[i]).index.x
                < total_tile_count.x && group.tiles@[i].index.y < total_tile_count.y,
        forall|i: int|
            0 <= i < group.tiles@.len() ==> (#[trigger] group.tiles@[i]).pile_layer
                < TILES_PER_PILE,
        forall|i1: int, i2: int|
            0 <= i1 < i2 < group.tiles@.len() ==> (#[trigger] group.tiles@[i1]).index
                != (#[trigger] group.tiles@[i2]).index,
    ensures
        mapper_for(mapper@, *group, total_tile_count),
{
    let n = (total_tile_count.x as usize) * (total_tile_count.y as usize);
    let mut mapper: Vec<u32> = Vec::new();
    while mapper.len() < n
        invariant
            n == total_tile_count.x * total_tile_count.y,
            mapper@.len() <= n,
            forall|c: int| 0 <= c < mapper@.len() ==> mapper@[c] == NO_TILE,
        decreases n - mapper@.len(),
    {
        mapper.push(NO_TILE);
    }
    proof {
        assert forall|x: int, y: int|
            0 <= x < total_tile_count.x && 0 <= y < total_tile_count.y implies mapper@[#[trigger]
        cell_index(total_tile_count.x as int, x, y)] == NO_TILE by {
            lemma_cell_index_bounds(
                total_tile_count.x as int,
                total_tile_count.y as int,
                x,
                y,
            );
        }
    }
    let mut i: usize = 0;
    while i < group.tiles.len()
        invariant
            i <= group.tiles@.len(),
            n == total_tile_count.x * total_tile_count.y,
            mapper@.len() == n,
            forall|q: int|
                0 <= q < group.tiles@.len() ==> (#[trigger] group.tiles@[q]).index.x
                    < total_tile_count.x && group.tiles@[q].index.y < total_tile_count.y,
            forall|q: int|
                0 <= q < group.tiles@.len() ==> (#[trigger] group.tiles@[q]).pile_layer
                    < TILES_PER_PILE,
            forall|q1: int, q2: int|
                0 <= q1 < q2 < group.tiles@.len() ==> (#[trigger] group.tiles@[q1]).index
                    != (#[trigger] group.tiles@[q2]).index,
            forall|q: int|
                0 <= q < i ==> {
                    let t = #[trigger] group.tiles@[q];
                    mapper@[cell_index(
                        total_tile_count.x as int,
                        t.index.x as int,
                        t.index.y as int,
                    )] == t.pile_layer
                },
            forall|x: int, y: int|
                0 <= x < total_tile_count.x && 0 <= y < total_tile_count.y && (forall|q: int|
                    0 <= q < i ==> !((#[trigger] group.tiles@[q]).index.x == x
                        && group.tiles@[q].index.y == y)) ==> mapper@[#[trigger] cell_index(
                    total_tile_count.x as int,
                    x,
                    y,
                )] == NO_TILE,
        decreases group.tiles@.len() - i,
    {
        let t = group.tiles[i];
        proof {
            lemma_cell_index_bounds(
                total_tile_count.x as int,
                total_tile_count.y as int,
                t.index.x as int,
                t.index.y as int,
            );
        }
        let cell = (t.index.y as usize) * (total_tile_count.x as usize) + (t.index.x as usize);
        let ghost prev = mapper@;
        mapper.set(cell, t.pile_layer);
        proof {
            let tx = total_tile_count.x as int;
            assert(t == group.tiles@[i as int]);
            assert(cell == cell_index(tx, t.index.x as int, t.index.y as int));
            assert forall|q: int| 0 <= q < i + 1 implies {
                let u = #[trigger] group.tiles@[q];
                mapper@[cell_index(tx, u.index.x as int, u.index.y as int)] == u.pile_layer
            } by {
                let u = group.tiles@[q];
                if q < i {
                    if cell_index(tx, u.index.x as int, u.index.y as int) == cell {
                        lemma_cell_index_injective(
                            tx,
                            u.index.x as int,
                            u.index.y as int,
                            t.index.x as int,
                            t.index.y as int,
                        );
                        assert(u.index == t.index);
                        assert(false);
                    } else {
                        lemma_cell_index_bounds(
                            tx,
                            total_tile_count.y as int,
                            u.index.x as int,
                            u.index.y as int,
                        );
                        assert(mapper@[cell_index(tx, u.index.x as int, u.index.y as int)]
                            == prev[cell_index(tx, u.index.x as int, u.index.y as int)]);
                    }
                } else {
                    assert(u == t);
                    assert(mapper@[cell_index(tx, u.index.x as int, u.index.y as int)]
                        == t.pile_layer);
                }
            }
            assert forall|x: int, y: int|
                0 <= x < total_tile_count.x && 0 <= y < total_tile_count.y && (forall|q: int|
                    0 <= q < i + 1 ==> !((#[trigger] group.tiles@[q]).index.x == x
                        && group.tiles@[q].index.y == y)) implies mapper@[#[trigger] cell_index(
                tx,
                x,
                y,
            )] == NO_TILE by {
                if cell_index(tx, x, y) == cell {
                    lemma_cell_index_injective(tx, x, y, t.index.x as int, t.index.y as int);
                    assert(group.tiles@[i as int].index.x == x && group.tiles@[i as int].index.y
                        == y);
                } else {
                    lemma_cell_index_bounds(tx, total_tile_count.y as int, x, y);
                }
            }
        }
        i = i + 1;
    }
    mapper
}

/// Two groups that share no grid coordinate own disjoint sets of mapping
/// cells: wherever one mapping buffer names a tile layer, the other holds
/// [`NO_TILE`]. Since the compositing shader skips [`NO_TILE`] cells, the
/// groups' sequential dispatches write disjoint pixels and a later group
/// never stomps what an earlier one composited.
pub proof fn lemma_mapper_groups_disjoint(
    m1: Seq<u32>,
    g1: GroupedTileViews,
    m2: Seq<u32>,
    g2: GroupedTileViews,
    total: UVec2,
)
    requires
        mapper_for(m1, g1, total),
        mapper_for(m2, g2, total),
        forall|i1: int, i2: int|
            0 <= i1 < g1.tiles@.len() && 0 <= i2 < g2.tiles@.len()
                ==> (#[trigger] g1.tiles@[i1]).index != (#[trigger] g2.tiles@[i2]).index,
        forall|i: int|
            0 <= i < g1.tiles@.len() ==> (#[trigger] g1.tiles@[i]).index.x < total.x
                && g1.tiles@[i].index.y < total.y && g1.tiles@[i].pile_layer < TILES_PER_PILE,
        forall|i: int|
            0 <= i < g2.tiles@.len() ==> (#[trigger] g2.tiles@[i]).index.x < total.x
                && g2.tiles@[i].index.y < total.y && g2.tiles@[i].pile_layer < TILES_PER_PILE,
    ensures
        forall|c: int| 0 <= c < total.x * total.y ==> m1[c] == NO_TILE || m2[c] == NO_TILE,
{
    assert forall|c: int| 0 <= c < total.x * total.y implies m1[c] == NO_TILE || m2[c] == NO_TILE by {
        let tx = total.x as int;
        assert(tx > 0) by (nonlinear_arith)
            requires
                0 <= c < tx * total.y as int,
                tx >= 0,
        ;
        let x = c % tx;
        let y = c / tx;
        vstd::arithmetic::div_mod::lemma_fundamental_div_mod(c, tx);
        vstd::arithmetic::div_mod::lemma_mod_bound(c, tx);
        assert(0 <= y < total.y) by (nonlinear_arith)
            requires
                c == tx * y + x,
                0 <= x < tx,
                0 <= c < tx * total.y as int,
        ;
        assert(c == tx * y + x);
        assert(y * tx + x == c) by (nonlinear_arith)
            requires
                c == tx * y + x,
        ;
        assert(cell_index(tx, x, y) == c);
        if m1[c] != NO_TILE && m2[c] != NO_TILE {
            assert(group_covers(g1, x, y));
            assert(group_covers(g2, x, y));
            let i1 = choose|i: int|
                0 <= i < g1.tiles@.len() && (#[trigger] g1.tiles@[i]).index.x == x
                    && g1.tiles@[i].index.y == y;
            let i2 = choose|i: int|
                0 <= i < g2.tiles@.len() && (#[trigger] g2.tiles@[i]).index.x == x
                    && g2.tiles@[i].index.y == y;
            assert(g1.tiles@[i1].index == g2.tiles@[i2].index);
            assert(false);
        }
    }
}

/// The workgroup grid of one compositing dispatch: the whole target surface,
/// one workgroup per started [`WORKGROUP_SIZE`]-pixel block.
pub fn dispatch_workgroups(target_size: UVec2) -> (count: UVec2)
    ensures
        count.x == div_ceil_spec(target_size.x as int, WORKGROUP_SIZE as int),
        count.y == div_ceil_spec(target_size.y as int, WORKGROUP_SIZE as int),
{
    UVec2 {
        x: div_ceil_u32(target_size.x, WORKGROUP_SIZE),
        y: div_ceil_u32(target_size.y, WORKGROUP_SIZE),
    }
}

/// Whether the intermediate surface must be recreated for a frame: only when
/// none exists yet or its backing size differs from the requested one.
pub fn needs_resize(current: Option<UVec2>, requested: UVec2) -> (r: bool)
    ensures
        r == (current != Some(requested)),
{
    match current {
        Some(c) => !(c.x == requested.x && c.y == requested.y),
        None => true,
    }
}

} // verus!
