//! What a view demands, and what it is served, tile by tile.

use vstd::prelude::*;
use crate::coordinate::TileCoordinate;
use crate::demand::{
    occurrences, separate, settled, update_keeps_the_grid, update_reports_the_change,
    update_settles_every_place,
};
use crate::grid::Cell;
use crate::tile_atlas::AtlasView;
use crate::tile_tree::{
    cell_at, cell_number, cell_numbers, column_of, home, layer_of, needed_refinements,
    place_bounds, row_of, wrapped_bounds, LayerDemand, TreeView, Visit,
};

verus! {

/// The number of a place of the window of a level of detail of a face.
spec fn window_number(tree: TreeView, face: int, lod: int, column: int, row: int) -> int {
    ((face * tree.lods + lod) * tree.size + column) * tree.size + row
}

/// The visit to a place of the window of a level of detail of a face.
proof fn visit_of(
    tree: TreeView,
    layers: Seq<LayerDemand>,
    face: int,
    lod: int,
    column: int,
    row: int,
)
    requires
        tree.wf(),
        tree.accepts(layers),
        0 <= face < tree.faces,
        0 <= lod < tree.lods,
        0 <= column < tree.size,
        0 <= row < tree.size,
    ensures
        0 <= face * tree.lods + lod < layers.len(),
        0 <= window_number(tree, face, lod, column, row) < tree.cell_count(),
        layer_of(window_number(tree, face, lod, column, row), tree.size as nat) == face * tree.lods
            + lod,
        column_of(window_number(tree, face, lod, column, row), tree.size as nat) == column,
        row_of(window_number(tree, face, lod, column, row), tree.size as nat) == row,
        tree.visits(layers)[window_number(tree, face, lod, column, row)] == (Visit {
            tile: TileCoordinate {
                face: face as u32,
                lod: lod as u32,
                x: (layers[face * tree.lods + lod].x + column) as i32,
                y: (layers[face * tree.lods + lod].y + row) as i32,
            },
            wanted: lod == 0 || layers[face * tree.lods + lod].near@[column * tree.size + row],
        }),
{
    let faces = tree.faces as nat;
    let lods = tree.lods as nat;
    let size = tree.size as nat;
    let cell: Cell = (face as usize, lod as usize, column as usize, row as usize);
    cell_numbers(faces, lods, size, cell);
    let i = window_number(tree, face, lod, column, row);
    assert(i == cell_number(cell, lods, size));
    place_bounds(i, faces, lods, size);
    let layer = layer_of(i, size);
    vstd::arithmetic::div_mod::lemma_fundamental_div_mod(layer, lods as int);
    assert(lods * (layer / lods as int) == (layer / lods as int) * lods) by (nonlinear_arith);
    assert(layer == face * tree.lods + lod);
}

/// A view demands exactly the tiles of its windows that are near, each judged by itself, and all tiles
/// of its windows onto the coarsest level of detail. The windows of the faces and levels follow each
/// other face by face, the tiles of a window column by column.
pub proof fn demand_is_what_is_near(tree: TreeView, layers: Seq<LayerDemand>, tile: TileCoordinate)
    requires
        tree.wf(),
        tree.accepts(layers),
        separate(tree, layers),
    ensures
        tree.update(layers).demand().contains(tile) <==> {
            let window = layers[tile.face * tree.lods + tile.lod];
            &&& tile.face < tree.faces
            &&& tile.lod < tree.lods
            &&& window.x <= tile.x < window.x + tree.size
            &&& window.y <= tile.y < window.y + tree.size
            &&& tile.lod == 0 || window.near@[(tile.x - window.x) * tree.size + (tile.y - window.y)]
        },
{
    let faces = tree.faces as nat;
    let lods = tree.lods as nat;
    let size = tree.size as nat;
    let visits = tree.visits(layers);
    let window = layers[tile.face * tree.lods + tile.lod];
    update_reports_the_change(tree, layers);
    if tree.update(layers).demand().contains(tile) {
        let i = choose|i: int|
            0 <= i < tree.cell_count() && (#[trigger] visits[i]) == (Visit { tile, wanted: true });
        place_bounds(i, faces, lods, size);
        let layer = layer_of(i, size);
        let column = column_of(i, size);
        let row = row_of(i, size);
        vstd::arithmetic::div_mod::lemma_fundamental_div_mod(layer, lods as int);
        assert(lods * (layer / lods as int) == (layer / lods as int) * lods) by (nonlinear_arith);
        let face = layer / lods as int;
        let lod = layer % lods as int;
        visit_of(tree, layers, face, lod, column, row);
        crate::demand::visit_has_its_number(i, lods, size);
        assert(window_number(tree, face, lod, column, row) == i);
        assert(layers[layer].near@.len() == size * size);
        assert(layers[layer].x + column <= i32::MAX && layers[layer].y + row <= i32::MAX);
    }
    if tile.face < tree.faces && tile.lod < tree.lods && window.x <= tile.x < window.x + tree.size
        && window.y <= tile.y < window.y + tree.size && (tile.lod == 0 || window.near@[(tile.x
        - window.x) * tree.size + (tile.y - window.y)]) {
        let column = tile.x - window.x;
        let row = tile.y - window.y;
        visit_of(tree, layers, tile.face as int, tile.lod as int, column, row);
        let i = window_number(tree, tile.face as int, tile.lod as int, column, row);
        assert(visits[i] == (Visit { tile, wanted: true }));
    }
}

/// A tile of a window is requested when it comes near and released when it no longer is, once each
/// time; a tile that stays near or far is neither requested nor released.
pub proof fn moves_request_what_comes_near(
    tree: TreeView,
    layers: Seq<LayerDemand>,
    tile: TileCoordinate,
    near: bool,
)
    requires
        tree.wf(),
        tree.accepts(layers),
        separate(tree, layers),
        near <==> {
            let window = layers[tile.face * tree.lods + tile.lod];
            &&& tile.face < tree.faces
            &&& tile.lod < tree.lods
            &&& window.x <= tile.x < window.x + tree.size
            &&& window.y <= tile.y < window.y + tree.size
            &&& tile.lod == 0 || window.near@[(tile.x - window.x) * tree.size + (tile.y - window.y)]
        },
    ensures
        occurrences(tree.update(layers).requested, tile) == occurrences(tree.requested, tile) + (
        if near && !tree.demand().contains(tile) {
            1int
        } else {
            0int
        }),
        occurrences(tree.update(layers).released, tile) == occurrences(tree.released, tile) + (
        if !near && tree.demand().contains(tile) {
            1int
        } else {
            0int
        }),
{
    demand_is_what_is_near(tree, layers, tile);
    update_reports_the_change(tree, layers);
}

/// The place of a tile: its face, its level of detail, and its column and row modulo the size of the
/// tree, taken as machine words. Moving a window does not move the tiles that stay inside of it.
pub proof fn places_wrap_around(tile: TileCoordinate, size: nat)
    requires
        size > 0,
        size <= usize::MAX,
        tile.face <= usize::MAX,
        tile.lod <= usize::MAX,
    ensures
        home(tile, size).0 == tile.face,
        home(tile, size).1 == tile.lod,
        tile.x >= 0 ==> home(tile, size).2 == tile.x as int % size as int,
        tile.x < 0 ==> home(tile, size).2 == (usize::MAX + 1 + tile.x) % size as int,
        tile.y >= 0 ==> home(tile, size).3 == tile.y as int % size as int,
        tile.y < 0 ==> home(tile, size).3 == (usize::MAX + 1 + tile.y) % size as int,
{
    wrapped_bounds(tile.x, size);
    wrapped_bounds(tile.y, size);
}

/// The entries are laid out as the shaders index them: face by face, level by level, then by the
/// column and the row modulo the size of the tree, taken as machine words. After an adjustment the
/// entry of a tile of a window is the best tile that the atlas has for it.
pub proof fn entries_serve_the_windows(
    tree: TreeView,
    layers: Seq<LayerDemand>,
    atlas: AtlasView,
    face: int,
    lod: int,
    column: int,
    row: int,
)
    requires
        tree.wf(),
        tree.accepts(layers),
        separate(tree, layers),
        0 <= face < tree.faces,
        0 <= lod < tree.lods,
        0 <= column < tree.size,
        0 <= row < tree.size,
    ensures
        ({
            let x = layers[face * tree.lods + lod].x + column;
            let y = layers[face * tree.lods + lod].y + row;
            let size = tree.size as int;
            let column = if x >= 0 {
                x % size
            } else {
                (usize::MAX + 1 + x) % size
            };
            let row = if y >= 0 {
                y % size
            } else {
                (usize::MAX + 1 + y) % size
            };
            let served = tree.update(layers).adjust(atlas, true);
            served.entry_list()[((face * tree.lods + lod) * size + column) * size + row]
                == atlas.best_tile(
                TileCoordinate { face: face as u32, lod: lod as u32, x: x as i32, y: y as i32 },
            )
        }),
{
    let faces = tree.faces as nat;
    let lods = tree.lods as nat;
    let size = tree.size as nat;
    let window = layers[face * tree.lods + lod];
    visit_of(tree, layers, face, lod, column, row);
    assert(window.x + column <= i32::MAX && window.y + row <= i32::MAX);
    let i = window_number(tree, face, lod, column, row);
    let visit = tree.visits(layers)[i];
    update_settles_every_place(tree, layers);
    update_keeps_the_grid(tree, layers);
    let moved = tree.update(layers);
    let cell = home(visit.tile, size);
    places_wrap_around(visit.tile, size);
    wrapped_bounds(visit.tile.x, size);
    wrapped_bounds(visit.tile.y, size);
    assert(moved.tiles[cell] == settled(visit));
    assert(moved.tiles.contains_key(cell));
    cell_numbers(faces, lods, size, cell);
    let number = cell_number(cell, lods, size);
    assert(cell_at(number, lods, size) == cell);
}

/// Rewriting the entries gives every place the best tile of the atlas for its tile, and nothing else
/// changes. It happens exactly if the tiles of the tree were computed in this frame or the terrain
/// reported a change.
pub proof fn adjustments_serve_the_best_tiles(
    tree: TreeView,
    atlas: AtlasView,
    terrain_changed: bool,
    cell: Cell,
)
    ensures
        ({
            let after = tree.adjust(atlas, terrain_changed);
            &&& after.adjusted == (tree.updated || terrain_changed)
            &&& after.tiles == tree.tiles
            &&& after.released == tree.released && after.requested == tree.requested
            &&& after.faces == tree.faces && after.lods == tree.lods && after.size == tree.size
            &&& after.computed == tree.computed && after.updated == tree.updated
            &&& after.view_changed == tree.view_changed
            &&& !after.adjusted ==> after.entries == tree.entries
            &&& after.adjusted && tree.tiles.contains_key(cell) ==> after.entries.contains_key(cell)
                && after.entries[cell] == atlas.best_tile(tree.tiles[cell].coordinate)
        }),
{
}

/// A frame computes the tiles anew exactly if that has never happened or the view has strayed; a view
/// that rests neither requests nor releases a tile.
pub proof fn resting_views_request_nothing(
    tree: TreeView,
    view_changed: bool,
    strayed: bool,
    layers: Seq<LayerDemand>,
)
    ensures
        ({
            let after = tree.refresh(view_changed, strayed, layers);
            let marked = TreeView {
                view_changed,
                updated: !tree.computed || strayed,
                computed: true,
                ..tree
            };
            &&& tree.computed && !strayed ==> after == marked
            &&& !tree.computed || strayed ==> after == marked.update(layers)
        }),
{
}

/// The passes cover the deepest level that is demanded and all levels of the terrain, unless the
/// configured number does not allow it; and there are no more of them than that takes.
pub proof fn refinements_cover_the_demand(configured: u32, deepest: Option<i64>, lod_count: u32)
    requires
        lod_count > 0,
    ensures
        ({
            let count = needed_refinements(configured, deepest, lod_count);
            &&& 0 <= count <= configured
            &&& count < configured ==> count >= lod_count
            &&& count < configured && deepest is Some ==> count > deepest->Some_0
            &&& count > lod_count ==> deepest is Some && count <= deepest->Some_0 + 1
        }),
{
}

/// A new tile tree demands no tile, serves none, and has nothing to report. It is computed in its first
/// frame, wherever the view is, and its entries are written in that frame.
pub proof fn new_trees_demand_nothing(
    tree: TreeView,
    faces: u32,
    lods: u32,
    size: u32,
    tile: TileCoordinate,
    cell: Cell,
)
    requires
        tree.is_new(faces, lods, size),
    ensures
        tree.faces == faces && tree.lods == lods && tree.size == size,
        !tree.demand().contains(tile),
        tree.tiles.contains_key(cell) ==> tree.tiles[cell].state is Released
            && tree.tiles[cell].coordinate == (TileCoordinate {
            face: u32::MAX,
            lod: u32::MAX,
            x: i32::MAX,
            y: i32::MAX,
        }),
        tree.entries.contains_key(cell) ==> tree.entries[cell].atlas_index == u32::MAX
            && tree.entries[cell].atlas_lod == u32::MAX,
        tree.released.len() == 0 && tree.requested.len() == 0,
        tree.must_update(true) && tree.must_update(false),
        tree.must_adjust(true) && tree.must_adjust(false),
        tree.must_upload(),
{
}

/// The shaders are given the entries and the view again exactly after one of them has changed: where
/// nothing was adjusted and the view stays, nothing is written.
pub proof fn changes_are_uploaded(tree: TreeView, atlas: AtlasView, terrain_changed: bool)
    ensures
        ({
            let after = tree.adjust(atlas, terrain_changed);
            after.must_upload() <==> tree.updated || terrain_changed || tree.view_changed
        }),
        tree.unadjusted().must_upload() <==> tree.view_changed,
{
}

/// A frame in which nothing has to be adjusted needs no atlas: it leaves the tree as it would be with
/// one.
pub proof fn unchanged_trees_need_no_atlas(tree: TreeView, atlas: AtlasView)
    requires
        !tree.updated,
    ensures
        tree.unadjusted() == tree.adjust(atlas, false),
        tree.unadjusted().entries == tree.entries,
{
}

/// The buffer of the entries has room for two words of four bytes for each of them.
pub proof fn buffers_hold_the_entries(tree: TreeView)
    ensures
        tree.buffer_size() == tree.entry_list().len() * (4 + 4),
{
}

/// A tile that comes to its place is requested behind those that were requested before, if it is wanted
/// and was not demanded; the tile that it finds there is released behind those that were released
/// before, if that one was demanded and is not the same, wanted tile. No other place changes.
pub proof fn visits_report_in_order(tree: TreeView, visit: Visit, cell: Cell)
    ensures
        ({
            let place = home(visit.tile, tree.size as nat);
            let found = tree.tiles[place];
            let demanded = found.state is Requested;
            let after = tree.visit(visit);
            &&& visit.wanted && !(demanded && found.coordinate == visit.tile) ==> after.requested
                == tree.requested.push(visit.tile)
            &&& !visit.wanted || (demanded && found.coordinate == visit.tile) ==> after.requested
                == tree.requested
            &&& demanded && !(visit.wanted && found.coordinate == visit.tile) ==> after.released
                == tree.released.push(found.coordinate)
            &&& !demanded || (visit.wanted && found.coordinate == visit.tile) ==> after.released
                == tree.released
            &&& after.tiles[place].coordinate == visit.tile
            &&& after.tiles[place].state is Requested <==> visit.wanted
            &&& cell != place ==> after.tiles[cell] == tree.tiles[cell]
            &&& after.entries == tree.entries
        }),
{
}

/// The places are visited one after the other.
pub proof fn places_are_visited_one_by_one(tree: TreeView, visits: Seq<Visit>, visit: Visit)
    ensures
        tree.visit_all(Seq::empty()) == tree,
        tree.visit_all(visits.push(visit)) == tree.visit_all(visits).visit(visit),
{
    assert(visits.push(visit).drop_last() =~= visits);
}

/// The windows are visited face by face, level by level, column by column and row by row. A tile is
/// wanted if it is of the first level or its own layer says that it is near.
pub proof fn windows_are_visited_in_order(
    tree: TreeView,
    layers: Seq<LayerDemand>,
    face: int,
    lod: int,
    column: int,
    row: int,
)
    requires
        tree.wf(),
        tree.accepts(layers),
        0 <= face < tree.faces,
        0 <= lod < tree.lods,
        0 <= column < tree.size,
        0 <= row < tree.size,
    ensures
        ({
            let layer = face * tree.lods + lod;
            let number = (layer * tree.size + column) * tree.size + row;
            let visits = tree.visits(layers);
            &&& 0 <= number < visits.len()
            &&& visits.len() == tree.faces * tree.lods * (tree.size * tree.size)
            &&& visits[number].tile.face == face
            &&& visits[number].tile.lod == lod
            &&& visits[number].tile.x == layers[layer].x + column
            &&& visits[number].tile.y == layers[layer].y + row
            &&& visits[number].wanted <==> lod == 0 || layers[layer].near@[column * tree.size + row]
        }),
{
    visit_of(tree, layers, face, lod, column, row);
    let window = layers[face * tree.lods + lod];
    assert(window.x + tree.size - 1 <= i32::MAX && window.y + tree.size - 1 <= i32::MAX);
}

} // verus!
