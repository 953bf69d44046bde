//! Which part of the terrain a served tile covers.

use vstd::prelude::*;
use vstd::arithmetic::power2::{lemma_pow2_adds, lemma_pow2_pos, pow2};
use crate::coordinate::{invalid_tile, parent_tile, parents_cover_their_children, TileCoordinate};
use crate::residency::{ancestor, best_tile_is_the_finest_loaded, loaded_above};
use crate::tile_atlas::{AtlasView, LoadingState};

verus! {

/// Whether a tile covers another one: both are on the same face, and the area of the finer one, which
/// is half as wide on each further level of detail, is inside that of the coarser one.
pub open spec fn covers(coarse: TileCoordinate, fine: TileCoordinate) -> bool {
    let width = pow2((fine.lod - coarse.lod) as nat);
    &&& coarse.face == fine.face
    &&& coarse.lod <= fine.lod
    &&& width * coarse.x <= fine.x < width * (coarse.x + 1)
    &&& width * coarse.y <= fine.y < width * (coarse.y + 1)
}

/// A position inside a tile that is itself inside a wider one is inside the wider one.
proof fn covered_position(fine: int, middle: int, coarse: int, width: int, wider: int)
    by (nonlinear_arith)
    requires
        width > 0,
        wider == 2 * width,
        2 * middle <= fine <= 2 * middle + 1,
        width * coarse <= middle < width * (coarse + 1),
    ensures
        wider * coarse <= fine < wider * (coarse + 1),
{
}

/// The tile that the search finds some levels above a tile covers it.
pub proof fn ancestors_cover(tile: TileCoordinate, levels: nat)
    ensures
        ancestor(tile, levels) is Some <==> levels <= tile.lod,
        levels <= tile.lod ==> {
            let found = ancestor(tile, levels)->Some_0;
            &&& found.lod == tile.lod - levels
            &&& covers(found, tile)
        },
    decreases levels,
{
    lemma_pow2_pos(levels);
    parents_cover_their_children(tile);
    if levels == 0 {
        vstd::arithmetic::power2::lemma2_to64();
        assert(pow2(0) * tile.x == tile.x && pow2(0) * (tile.x + 1) == tile.x + 1 && pow2(0) * tile.y
            == tile.y && pow2(0) * (tile.y + 1) == tile.y + 1) by (nonlinear_arith)
            requires
                pow2(0) == 1,
        ;
    } else if tile.lod > 0 {
        let parent = parent_tile(tile)->Some_0;
        let above = (levels - 1) as nat;
        ancestors_cover(parent, above);
        if levels <= tile.lod {
            let found = ancestor(parent, above)->Some_0;
            lemma_pow2_pos(above);
            lemma_pow2_adds(1, above);
            vstd::arithmetic::power2::lemma2_to64();
            let width = pow2(above) as int;
            covered_position(tile.x as int, parent.x as int, found.x as int, width, pow2(levels) as int);
            covered_position(tile.y as int, parent.y as int, found.y as int, width, pow2(levels) as int);
        }
    }
}

/// A position lies in one interval of a given width only.
proof fn same_interval(position: int, a: int, b: int, width: int)
    by (nonlinear_arith)
    requires
        width > 0,
        width * a <= position < width * (a + 1),
        width * b <= position < width * (b + 1),
    ensures
        a == b,
{
}

/// There is one tile of every level of detail that covers a tile: the one that the search finds.
pub proof fn covering_tiles_are_ancestors(coarse: TileCoordinate, fine: TileCoordinate)
    requires
        covers(coarse, fine),
    ensures
        ancestor(fine, (fine.lod - coarse.lod) as nat) == Some(coarse),
{
    let levels = (fine.lod - coarse.lod) as nat;
    ancestors_cover(fine, levels);
    lemma_pow2_pos(levels);
    let found = ancestor(fine, levels)->Some_0;
    same_interval(fine.x as int, found.x as int, coarse.x as int, pow2(levels) as int);
    same_interval(fine.y as int, found.y as int, coarse.y as int, pow2(levels) as int);
}

/// A tile of the terrain is served the slot of a loaded tile that covers it, and no loaded tile that
/// covers it is finer. It is served nothing exactly if no loaded tile covers it.
pub proof fn served_tiles_cover_their_place(atlas: AtlasView, tile: TileCoordinate)
    requires
        atlas.existing.contains(tile),
        tile != invalid_tile(),
    ensures
        ({
            let entry = atlas.best_tile(tile);
            if exists|loaded: TileCoordinate|
                atlas.tiles.contains_key(loaded) && atlas.tiles[loaded].state
                    == LoadingState::Loaded && #[trigger] covers(loaded, tile) {
                exists|loaded: TileCoordinate|
                    {
                        &&& atlas.tiles.contains_key(loaded)
                        &&& atlas.tiles[loaded].state == LoadingState::Loaded
                        &&& #[trigger] covers(loaded, tile)
                        &&& entry.atlas_index == atlas.tiles[loaded].atlas_index
                        &&& entry.atlas_lod == loaded.lod
                        &&& forall|other: TileCoordinate|
                            atlas.tiles.contains_key(other) && atlas.tiles[other].state
                                == LoadingState::Loaded && #[trigger] covers(other, tile)
                                ==> other.lod <= loaded.lod
                    }
            } else {
                entry.atlas_index == u32::MAX && entry.atlas_lod == u32::MAX
            }
        }),
{
    let resident = atlas.resident();
    let levels = best_tile_is_the_finest_loaded(resident, tile);
    assert forall|other: TileCoordinate|
        atlas.tiles.contains_key(other) && atlas.tiles[other].state == LoadingState::Loaded
            && #[trigger] covers(other, tile) implies loaded_above(
        resident,
        tile,
        (tile.lod - other.lod) as nat,
    ) by {
        covering_tiles_are_ancestors(other, tile);
        assert(resident.contains_key(other));
    }
    if loaded_above(resident, tile, levels) {
        ancestors_cover(tile, levels);
        let loaded = ancestor(tile, levels)->Some_0;
        assert(covers(loaded, tile));
        assert forall|other: TileCoordinate|
            atlas.tiles.contains_key(other) && atlas.tiles[other].state == LoadingState::Loaded
                && #[trigger] covers(other, tile) implies other.lod <= loaded.lod by {
            assert(loaded_above(resident, tile, (tile.lod - other.lod) as nat));
        }
    }
}

/// A tile that the terrain does not have is served nothing.
pub proof fn missing_tiles_are_served_nothing(atlas: AtlasView, tile: TileCoordinate)
    requires
        !atlas.existing.contains(tile),
    ensures
        atlas.best_tile(tile).atlas_index == u32::MAX,
        atlas.best_tile(tile).atlas_lod == u32::MAX,
{
}

/// A place that no tile has come to is served nothing, whatever the atlas holds.
pub proof fn unvisited_places_are_served_nothing(atlas: AtlasView)
    ensures
        ({
            let nowhere = TileCoordinate {
                face: u32::MAX,
                lod: u32::MAX,
                x: i32::MAX,
                y: i32::MAX,
            };
            &&& atlas.best_tile(nowhere).atlas_index == u32::MAX
            &&& atlas.best_tile(nowhere).atlas_lod == u32::MAX
        }),
{
}

} // verus!
