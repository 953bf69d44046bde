//! What a moving window requests and releases.

use vstd::prelude::*;
use crate::coordinate::TileCoordinate;
use crate::grid::{has_cell, Cell};
use crate::tile_tree::{
    cell_number, cell_numbers, column_of, home, layer_of, place_bounds, row_of, visit_keeps_wf,
    wrapped, LayerDemand, RequestState, TileState, TreeView, Visit,
};

verus! {

/// How often a tile is in a list.
pub open spec fn occurrences(tiles: Seq<TileCoordinate>, tile: TileCoordinate) -> nat
    decreases tiles.len(),
{
    if tiles.len() == 0 {
        0
    } else if tiles.last() == tile {
        occurrences(tiles.drop_last(), tile) + 1
    } else {
        occurrences(tiles.drop_last(), tile)
    }
}

/// One if the tree demands the tile, else zero.
pub open spec fn demanded(tree: TreeView, tile: TileCoordinate) -> nat {
    if tree.demand().contains(tile) {
        1
    } else {
        0
    }
}

/// Adding a tile to a list adds one occurrence.
proof fn occurrences_of_push(tiles: Seq<TileCoordinate>, last: TileCoordinate, tile: TileCoordinate)
    ensures
        occurrences(tiles.push(last), tile) == occurrences(tiles, tile) + if last == tile {
            1nat
        } else {
            0nat
        },
{
    assert(tiles.push(last).drop_last() =~= tiles);
}

/// A visit balances the lists against the demand.
proof fn visit_balances(tree: TreeView, visit: Visit, tile: TileCoordinate)
    requires
        tree.wf(),
        tree.tiles.contains_key(home(visit.tile, tree.size as nat)),
    ensures
        demanded(tree, tile) + occurrences(tree.visit(visit).requested, tile) + occurrences(
            tree.released,
            tile,
        ) == demanded(tree.visit(visit), tile) + occurrences(tree.visit(visit).released, tile)
            + occurrences(tree.requested, tile),
{
    let cell = home(visit.tile, tree.size as nat);
    let old = tree.tiles[cell];
    let after = tree.visit(visit);
    occurrences_of_push(tree.released, old.coordinate, tile);
    occurrences_of_push(tree.requested, visit.tile, tile);
    let place = home(tile, tree.size as nat);
    if place != cell {
        assert(tile != visit.tile);
        assert(after.tiles.contains_key(place) == tree.tiles.contains_key(place));
        assert(after.tiles[place] == tree.tiles[place]);
        if old.state is Requested {
            assert(home(old.coordinate, tree.size as nat) == cell);
        }
    }
}

/// Every place that the visits come to is a place of the tree.
pub open spec fn inside(tree: TreeView, visits: Seq<Visit>) -> bool {
    forall|i: int|
        0 <= i < visits.len() ==> tree.tiles.contains_key(
            home((#[trigger] visits[i]).tile, tree.size as nat),
        )
}

/// Visits keep the dimensions of the tree and its places.
proof fn visits_keep_places(tree: TreeView, visits: Seq<Visit>)
    requires
        tree.wf(),
        inside(tree, visits),
    ensures
        ({
            let after = tree.visit_all(visits);
            &&& after.wf()
            &&& after.faces == tree.faces
            &&& after.lods == tree.lods
            &&& after.size == tree.size
            &&& after.tiles.dom() == tree.tiles.dom()
        }),
    decreases visits.len(),
{
    if visits.len() > 0 {
        let front = visits.drop_last();
        assert(inside(tree, front)) by {
            assert forall|i: int| 0 <= i < front.len() implies tree.tiles.contains_key(
                home((#[trigger] front[i]).tile, tree.size as nat),
            ) by {
                assert(visits[i] == front[i]);
            }
        }
        visits_keep_places(tree, front);
        let before = tree.visit_all(front);
        let last = visits[visits.len() - 1];
        assert(tree.tiles.contains_key(home(last.tile, tree.size as nat)));
        assert(before.tiles.dom().contains(home(last.tile, tree.size as nat)));
        visit_keeps_wf(before, last);
        assert(before.visit(last).tiles.dom() =~= before.tiles.dom());
    }
}

/// Visits balance the lists against the demand.
proof fn visits_balance(tree: TreeView, visits: Seq<Visit>, tile: TileCoordinate)
    requires
        tree.wf(),
        inside(tree, visits),
    ensures
        ({
            let after = tree.visit_all(visits);
            demanded(tree, tile) + occurrences(after.requested, tile) + occurrences(
                tree.released,
                tile,
            ) == demanded(after, tile) + occurrences(after.released, tile) + occurrences(
                tree.requested,
                tile,
            )
        }),
    decreases visits.len(),
{
    if visits.len() > 0 {
        let front = visits.drop_last();
        assert(inside(tree, front)) by {
            assert forall|i: int| 0 <= i < front.len() implies tree.tiles.contains_key(
                home((#[trigger] front[i]).tile, tree.size as nat),
            ) by {
                assert(visits[i] == front[i]);
            }
        }
        visits_keep_places(tree, front);
        visits_balance(tree, front, tile);
        let before = tree.visit_all(front);
        let last = visits[visits.len() - 1];
        assert(tree.tiles.contains_key(home(last.tile, tree.size as nat)));
        assert(before.tiles.dom().contains(home(last.tile, tree.size as nat)));
        visit_balances(before, last, tile);
    }
}

/// The visits of a moving window come to places of the tree.
proof fn window_is_inside(tree: TreeView, layers: Seq<LayerDemand>)
    requires
        tree.wf(),
        tree.accepts(layers),
    ensures
        inside(tree, tree.visits(layers)),
{
    let visits = tree.visits(layers);
    let faces = tree.faces as nat;
    let lods = tree.lods as nat;
    let size = tree.size as nat;
    assert forall|i: int| 0 <= i < visits.len() implies tree.tiles.contains_key(
        home((#[trigger] visits[i]).tile, size),
    ) by {
        place_bounds(i, faces, lods, size);
        crate::tile_tree::wrapped_bounds(visits[i].tile.x, size);
        crate::tile_tree::wrapped_bounds(visits[i].tile.y, size);
        assert(has_cell(faces, lods, size, home(visits[i].tile, size)));
    }
}

/// A moving window keeps its books: every tile that comes into demand is requested, and every tile
/// that leaves it is released, exactly as often.
pub proof fn update_balances(tree: TreeView, layers: Seq<LayerDemand>, tile: TileCoordinate)
    requires
        tree.wf(),
        tree.accepts(layers),
    ensures
        ({
            let after = tree.update(layers);
            demanded(tree, tile) + occurrences(after.requested, tile) + occurrences(
                tree.released,
                tile,
            ) == demanded(after, tile) + occurrences(after.released, tile) + occurrences(
                tree.requested,
                tile,
            )
        }),
{
    window_is_inside(tree, layers);
    visits_balance(tree, tree.visits(layers), tile);
}

/// Whether the columns or rows of a window that begins at `origin` wrap around evenly: the window
/// does not cross from negative to other positions, unless the range of a machine word is a multiple
/// of its size.
pub open spec fn wraps_evenly(origin: i32, size: nat) -> bool {
    origin >= 0 || origin + size <= 0 || (usize::MAX + 1) % size as int == 0
}

/// Whether the windows of all layers wrap around evenly, so that their tiles have different places.
pub open spec fn separate(tree: TreeView, layers: Seq<LayerDemand>) -> bool {
    forall|layer: int|
        0 <= layer < layers.len() ==> wraps_evenly((#[trigger] layers[layer]).x, tree.size as nat)
            && wraps_evenly(layers[layer].y, tree.size as nat)
}

/// What is added to the positions of a window before they wrap around.
spec fn shift(origin: i32, size: nat) -> int {
    if origin >= 0 || (usize::MAX + 1) % size as int == 0 {
        0
    } else {
        usize::MAX + 1
    }
}

/// The places of a window that wraps around evenly are consecutive.
proof fn wrapped_by_shift(origin: i32, size: nat, offset: int)
    requires
        size > 0,
        wraps_evenly(origin, size),
        0 <= offset < size,
        origin + offset <= i32::MAX,
    ensures
        wrapped((origin + offset) as i32, size) == (origin + offset + shift(origin, size))
            % size as int,
{
    let position = origin + offset;
    let word = usize::MAX + 1;
    if position < 0 && word % size as int == 0 {
        vstd::arithmetic::div_mod::lemma_add_mod_noop(word, position, size as int);
        vstd::arithmetic::div_mod::lemma_add_mod_noop(0, position, size as int);
        vstd::arithmetic::div_mod::lemma_small_mod(0, size);
    }
}

/// Different columns or rows of a window have different places.
proof fn wrapped_differ(origin: i32, size: nat, a: int, b: int)
    requires
        size > 0,
        wraps_evenly(origin, size),
        0 <= a < size,
        0 <= b < size,
        origin + size - 1 <= i32::MAX,
        wrapped((origin + a) as i32, size) == wrapped((origin + b) as i32, size),
    ensures
        a == b,
{
    wrapped_by_shift(origin, size, a);
    wrapped_by_shift(origin, size, b);
    let base = origin + shift(origin, size);
    vstd::arithmetic::div_mod::lemma_mod_equivalence(base + a, base + b, size as int);
    vstd::arithmetic::div_mod::lemma_mod_equivalence(base + b, base + a, size as int);
    if a > b {
        vstd::arithmetic::div_mod::lemma_small_mod((a - b) as nat, size);
    }
    if b > a {
        vstd::arithmetic::div_mod::lemma_small_mod((b - a) as nat, size);
    }
}

/// The column or row of a window that has the given place.
spec fn offset_of(origin: i32, size: nat, place: int) -> int {
    (place - origin - shift(origin, size)) % size as int
}

/// Every place is the place of a column or row of the window.
proof fn wrapped_covers(origin: i32, size: nat, place: int)
    requires
        size > 0,
        wraps_evenly(origin, size),
        0 <= place < size,
        origin + size - 1 <= i32::MAX,
    ensures
        0 <= offset_of(origin, size, place) < size,
        wrapped((origin + offset_of(origin, size, place)) as i32, size) == place,
{
    let base = origin + shift(origin, size);
    let offset = offset_of(origin, size, place);
    vstd::arithmetic::div_mod::lemma_mod_bound(place - base, size as int);
    wrapped_by_shift(origin, size, offset);
    vstd::arithmetic::div_mod::lemma_add_mod_noop_right(base, place - base, size as int);
    vstd::arithmetic::div_mod::lemma_small_mod(place as nat, size);
}

/// The number of a visit follows from its layer, column and row.
proof fn number_of_visit(i: int, size: nat)
    requires
        0 <= i,
        size > 0,
    ensures
        i == (layer_of(i, size) * size + column_of(i, size)) * size + row_of(i, size),
{
    let n = size as int;
    vstd::arithmetic::div_mod::lemma_fundamental_div_mod(i, n);
    vstd::arithmetic::div_mod::lemma_fundamental_div_mod(i / n, n);
    vstd::arithmetic::div_mod::lemma_div_denominator(i, n, n);
    let layer = layer_of(i, size);
    assert(layer == i / n / n);
    assert(n * layer == layer * n) by (nonlinear_arith);
    assert(n * (i / n) == (i / n) * n) by (nonlinear_arith);
}

/// The number of a visit follows from its face, level of detail, column and row.
pub proof fn visit_has_its_number(i: int, lods: nat, size: nat)
    requires
        0 <= i,
        lods > 0,
        size > 0,
    ensures
        i == ((layer_of(i, size) / lods as int * lods + layer_of(i, size) % lods as int) * size
            + column_of(i, size)) * size + row_of(i, size),
{
    number_of_visit(i, size);
    let layer = layer_of(i, size);
    vstd::arithmetic::div_mod::lemma_fundamental_div_mod(layer, lods as int);
    assert(lods * (layer / lods as int) == (layer / lods as int) * lods) by (nonlinear_arith);
}

/// Moving a window keeps the dimensions of a tile tree and its places, its entries and its flags.
pub proof fn update_keeps_the_grid(tree: TreeView, layers: Seq<LayerDemand>)
    requires
        tree.wf(),
        tree.accepts(layers),
    ensures
        ({
            let after = tree.update(layers);
            &&& after.wf()
            &&& after.faces == tree.faces && after.lods == tree.lods && after.size == tree.size
            &&& after.tiles.dom() == tree.tiles.dom()
            &&& after.entries == tree.entries
            &&& after.computed == tree.computed && after.updated == tree.updated
            &&& after.adjusted == tree.adjusted && after.view_changed == tree.view_changed
        }),
{
    window_is_inside(tree, layers);
    visits_keep_the_rest(tree, tree.visits(layers));
}

/// Visits change the tiles at their places and the lists, and nothing else.
proof fn visits_keep_the_rest(tree: TreeView, visits: Seq<Visit>)
    requires
        tree.wf(),
        inside(tree, visits),
    ensures
        ({
            let after = tree.visit_all(visits);
            &&& after.wf()
            &&& after.faces == tree.faces && after.lods == tree.lods && after.size == tree.size
            &&& after.tiles.dom() == tree.tiles.dom()
            &&& after.entries == tree.entries
            &&& after.computed == tree.computed && after.updated == tree.updated
            &&& after.adjusted == tree.adjusted && after.view_changed == tree.view_changed
        }),
    decreases visits.len(),
{
    if visits.len() > 0 {
        let front = visits.drop_last();
        let last = visits.last();
        assert forall|i: int| 0 <= i < front.len() implies tree.tiles.contains_key(
            home((#[trigger] front[i]).tile, tree.size as nat),
        ) by {
            assert(visits[i] == front[i]);
        }
        visits_keep_the_rest(tree, front);
        assert(visits[visits.len() - 1] == last);
        let before = tree.visit_all(front);
        assert(tree.tiles.dom().contains(home(last.tile, tree.size as nat)));
        assert(before.tiles.dom().contains(home(last.tile, tree.size as nat)));
        visit_keeps_wf(before, last);
        assert(tree.visit_all(visits).tiles.dom() =~= tree.tiles.dom());
    }
}

/// Different visits come to different places.
proof fn visits_differ(tree: TreeView, layers: Seq<LayerDemand>, i: int, j: int)
    requires
        tree.wf(),
        tree.accepts(layers),
        separate(tree, layers),
        0 <= i < tree.cell_count(),
        0 <= j < tree.cell_count(),
        home(tree.visits(layers)[i].tile, tree.size as nat) == home(
            tree.visits(layers)[j].tile,
            tree.size as nat,
        ),
    ensures
        i == j,
{
    let faces = tree.faces as nat;
    let lods = tree.lods as nat;
    let size = tree.size as nat;
    let n = lods as int;
    place_bounds(i, faces, lods, size);
    place_bounds(j, faces, lods, size);
    let a = layer_of(i, size);
    let b = layer_of(j, size);
    vstd::arithmetic::div_mod::lemma_fundamental_div_mod(a, n);
    vstd::arithmetic::div_mod::lemma_fundamental_div_mod(b, n);
    assert(a / n == b / n && a % n == b % n);
    assert(a == b);
    let layer = layers[a];
    let first = tree.visits(layers)[i].tile;
    let second = tree.visits(layers)[j].tile;
    crate::tile_tree::wrapped_bounds(first.x, size);
    crate::tile_tree::wrapped_bounds(first.y, size);
    crate::tile_tree::wrapped_bounds(second.x, size);
    crate::tile_tree::wrapped_bounds(second.y, size);
    wrapped_differ(layer.x, size, column_of(i, size), column_of(j, size));
    wrapped_differ(layer.y, size, row_of(i, size), row_of(j, size));
    number_of_visit(i, size);
    number_of_visit(j, size);
}

/// The number of the visit that comes to a place.
spec fn visitor(tree: TreeView, layers: Seq<LayerDemand>, cell: Cell) -> int {
    let size = tree.size as nat;
    let layer = layers[cell.0 * tree.lods + cell.1];
    cell_number(
        (
            cell.0,
            cell.1,
            offset_of(layer.x, size, cell.2 as int) as usize,
            offset_of(layer.y, size, cell.3 as int) as usize,
        ),
        tree.lods as nat,
        size,
    )
}

/// Every place is visited.
proof fn every_place_is_visited(tree: TreeView, layers: Seq<LayerDemand>, cell: Cell)
    requires
        tree.wf(),
        tree.accepts(layers),
        separate(tree, layers),
        tree.tiles.contains_key(cell),
    ensures
        0 <= visitor(tree, layers, cell) < tree.cell_count(),
        home(tree.visits(layers)[visitor(tree, layers, cell)].tile, tree.size as nat) == cell,
{
    let faces = tree.faces as nat;
    let lods = tree.lods as nat;
    let size = tree.size as nat;
    assert(has_cell(faces, lods, size, cell));
    let number = cell.0 * lods + cell.1;
    assert(0 <= number < faces * lods) by (nonlinear_arith)
        requires
            number == cell.0 * lods + cell.1,
            cell.0 <= faces - 1,
            cell.1 < lods,
    ;
    let layer = layers[number];
    wrapped_covers(layer.x, size, cell.2 as int);
    wrapped_covers(layer.y, size, cell.3 as int);
    let from = (
        cell.0,
        cell.1,
        offset_of(layer.x, size, cell.2 as int) as usize,
        offset_of(layer.y, size, cell.3 as int) as usize,
    );
    cell_numbers(faces, lods, size, from);
    let i = visitor(tree, layers, cell);
    place_bounds(i, faces, lods, size);
    vstd::arithmetic::div_mod::lemma_fundamental_div_mod(layer_of(i, size), lods as int);
    assert(layer_of(i, size) == number) by (nonlinear_arith)
        requires
            layer_of(i, size) == lods * (layer_of(i, size) / lods as int) + layer_of(i, size)
                % lods as int,
            layer_of(i, size) / lods as int == cell.0,
            layer_of(i, size) % lods as int == cell.1,
            number == cell.0 * lods + cell.1,
    ;
}

/// One if a tile is in the first set and not in the second, else zero.
pub open spec fn gained(
    now: Set<TileCoordinate>,
    before: Set<TileCoordinate>,
    tile: TileCoordinate,
) -> nat {
    if now.contains(tile) && !before.contains(tile) {
        1
    } else {
        0
    }
}

/// The state of the place of a visit afterwards.
pub open spec fn settled(visit: Visit) -> TileState {
    TileState {
        coordinate: visit.tile,
        state: if visit.wanted {
            RequestState::Requested
        } else {
            RequestState::Released
        },
    }
}

/// Whether the lists have grown by the difference of two demands.
spec fn reports(before: TreeView, after: TreeView, tile: TileCoordinate) -> bool {
    &&& occurrences(after.requested, tile) == occurrences(before.requested, tile) + gained(
        after.demand(),
        before.demand(),
        tile,
    )
    &&& occurrences(after.released, tile) == occurrences(before.released, tile) + gained(
        before.demand(),
        after.demand(),
        tile,
    )
}

/// A visit to a place that has not changed since `tree` reports its change.
proof fn visit_reports(tree: TreeView, before: TreeView, visit: Visit, tile: TileCoordinate)
    requires
        tree.wf(),
        before.wf(),
        before.size == tree.size,
        before.tiles.dom() == tree.tiles.dom(),
        tree.tiles.contains_key(home(visit.tile, tree.size as nat)),
        before.tiles[home(visit.tile, tree.size as nat)] == tree.tiles[home(
            visit.tile,
            tree.size as nat,
        )],
        reports(tree, before, tile),
    ensures
        reports(tree, before.visit(visit), tile),
{
    let size = tree.size as nat;
    let cell = home(visit.tile, size);
    let after = before.visit(visit);
    let old = tree.tiles[cell];
    let place = home(tile, size);
    assert(before.tiles.dom().contains(cell));
    assert(before.tiles.dom().contains(place) == tree.tiles.dom().contains(place));
    occurrences_of_push(before.released, old.coordinate, tile);
    occurrences_of_push(before.requested, visit.tile, tile);
    if place != cell {
        assert(tile != visit.tile);
        assert(after.demand().contains(tile) == before.demand().contains(tile));
        if old.state is Requested {
            assert(home(old.coordinate, size) == cell);
        }
    } else {
        assert(before.demand().contains(tile) == tree.demand().contains(tile));
    }
}

/// Whether no two visits come to the same place.
spec fn distinct_places(visits: Seq<Visit>, size: nat) -> bool {
    forall|i: int, j: int|
        0 <= i < visits.len() && 0 <= j < visits.len() && home(
            (#[trigger] visits[i]).tile,
            size,
        ) == home((#[trigger] visits[j]).tile, size) ==> i == j
}

/// Whether a visit comes to a place.
spec fn visited(visits: Seq<Visit>, size: nat, cell: Cell) -> bool {
    exists|k: int| 0 <= k < visits.len() && home((#[trigger] visits[k]).tile, size) == cell
}

/// What visits to different places do.
proof fn visits_report(tree: TreeView, visits: Seq<Visit>)
    requires
        tree.wf(),
        inside(tree, visits),
        distinct_places(visits, tree.size as nat),
    ensures
        tree.visit_all(visits).wf(),
        tree.visit_all(visits).size == tree.size,
        tree.visit_all(visits).tiles.dom() == tree.tiles.dom(),
        forall|k: int|
            0 <= k < visits.len() ==> tree.visit_all(visits).tiles[home(
                (#[trigger] visits[k]).tile,
                tree.size as nat,
            )] == settled(visits[k]),
        forall|cell: Cell|
            !visited(visits, tree.size as nat, cell) ==> #[trigger] tree.visit_all(
                visits,
            ).tiles[cell] == tree.tiles[cell],
        forall|tile: TileCoordinate| #[trigger] reports(tree, tree.visit_all(visits), tile),
    decreases visits.len(),
{
    let size = tree.size as nat;
    if visits.len() > 0 {
        let front = visits.drop_last();
        let last = visits.last();
        let cell = home(last.tile, size);
        assert forall|i: int| 0 <= i < front.len() implies tree.tiles.contains_key(
            home((#[trigger] front[i]).tile, size),
        ) by {
            assert(visits[i] == front[i]);
        }
        assert(distinct_places(front, size)) by {
            assert forall|i: int, j: int|
                0 <= i < front.len() && 0 <= j < front.len() && home(
                    (#[trigger] front[i]).tile,
                    size,
                ) == home((#[trigger] front[j]).tile, size) implies i == j by {
                assert(visits[i] == front[i] && visits[j] == front[j]);
            }
        }
        visits_report(tree, front);
        let before = tree.visit_all(front);
        let after = tree.visit_all(visits);
        assert(visits[visits.len() - 1] == last);
        assert(tree.tiles.dom().contains(cell));
        visit_keeps_wf(before, last);
        assert(after.tiles.dom() =~= tree.tiles.dom());
        assert(!visited(front, size, cell)) by {
            if visited(front, size, cell) {
                let k = choose|k: int|
                    0 <= k < front.len() && home((#[trigger] front[k]).tile, size) == cell;
                assert(visits[k] == front[k]);
            }
        }
        assert(before.tiles[cell] == tree.tiles[cell]);
        assert forall|k: int| 0 <= k < visits.len() implies after.tiles[home(
            (#[trigger] visits[k]).tile,
            size,
        )] == settled(visits[k]) by {
            if k < front.len() {
                assert(visits[k] == front[k]);
                assert(visited(front, size, home(front[k].tile, size)));
            }
        }
        assert forall|other: Cell| !visited(visits, size, other) implies #[trigger] after.tiles[other]
            == tree.tiles[other] by {
            assert(other != cell) by {
                assert(visits[visits.len() - 1] == last);
            }
            assert(!visited(front, size, other)) by {
                if visited(front, size, other) {
                    let k = choose|k: int|
                        0 <= k < front.len() && home((#[trigger] front[k]).tile, size) == other;
                    assert(visits[k] == front[k]);
                }
            }
            assert(before.tiles[other] == tree.tiles[other]);
        }
        assert forall|tile: TileCoordinate| #[trigger] reports(tree, after, tile) by {
            assert(reports(tree, before, tile));
            visit_reports(tree, before, last, tile);
        }
    }
}

/// Visits leave at every place the tile of the last one that came to it.
proof fn last_visits_settle(tree: TreeView, visits: Seq<Visit>, i: int)
    requires
        0 <= i < visits.len(),
        forall|j: int|
            i < j < visits.len() ==> home((#[trigger] visits[j]).tile, tree.size as nat) != home(
                visits[i].tile,
                tree.size as nat,
            ),
    ensures
        tree.visit_all(visits).size == tree.size,
        tree.visit_all(visits).tiles[home(visits[i].tile, tree.size as nat)] == settled(visits[i]),
    decreases visits.len(),
{
    let front = visits.drop_last();
    visits_keep_size(tree, front);
    if i < front.len() {
        assert forall|j: int| i < j < front.len() implies home(
            (#[trigger] front[j]).tile,
            tree.size as nat,
        ) != home(front[i].tile, tree.size as nat) by {
            assert(visits[j] == front[j]);
        }
        last_visits_settle(tree, front, i);
        assert(visits.last() == visits[visits.len() - 1]);
    }
}

/// Visits do not change the size of a tile tree.
proof fn visits_keep_size(tree: TreeView, visits: Seq<Visit>)
    ensures
        tree.visit_all(visits).size == tree.size,
    decreases visits.len(),
{
    if visits.len() > 0 {
        visits_keep_size(tree, visits.drop_last());
    }
}

/// After the window has moved, a place holds the tile of the window that came to it last, and the tile
/// is requested exactly if the view wants it.
pub proof fn update_settles_the_last_tiles(tree: TreeView, layers: Seq<LayerDemand>, i: int)
    requires
        tree.wf(),
        tree.accepts(layers),
        0 <= i < tree.cell_count(),
        forall|j: int|
            i < j < tree.cell_count() ==> home(
                (#[trigger] tree.visits(layers)[j]).tile,
                tree.size as nat,
            ) != home(tree.visits(layers)[i].tile, tree.size as nat),
    ensures
        tree.update(layers).tiles[home(tree.visits(layers)[i].tile, tree.size as nat)] == settled(
            tree.visits(layers)[i],
        ),
{
    last_visits_settle(tree, tree.visits(layers), i);
}

/// After the window has moved, every place holds its tile of the window, and the tile is requested
/// exactly if the view wants it.
pub proof fn update_settles_every_place(tree: TreeView, layers: Seq<LayerDemand>)
    requires
        tree.wf(),
        tree.accepts(layers),
        separate(tree, layers),
    ensures
        forall|i: int|
            0 <= i < tree.cell_count() ==> tree.update(layers).tiles[home(
                (#[trigger] tree.visits(layers)[i]).tile,
                tree.size as nat,
            )] == settled(tree.visits(layers)[i]),
        forall|cell: Cell| #[trigger]
            tree.update(layers).tiles.contains_key(cell) ==> exists|i: int|
                0 <= i < tree.cell_count() && home(
                    (#[trigger] tree.visits(layers)[i]).tile,
                    tree.size as nat,
                ) == cell,
{
    let visits = tree.visits(layers);
    let size = tree.size as nat;
    window_is_inside(tree, layers);
    assert(distinct_places(visits, size)) by {
        assert forall|i: int, j: int|
            0 <= i < visits.len() && 0 <= j < visits.len() && home(
                (#[trigger] visits[i]).tile,
                size,
            ) == home((#[trigger] visits[j]).tile, size) implies i == j by {
            visits_differ(tree, layers, i, j);
        }
    }
    visits_report(tree, visits);
    assert forall|cell: Cell| #[trigger] tree.update(layers).tiles.contains_key(
        cell,
    ) implies exists|i: int|
        0 <= i < tree.cell_count() && home((#[trigger] visits[i]).tile, size) == cell by {
        assert(tree.tiles.dom().contains(cell));
        every_place_is_visited(tree, layers, cell);
        let i = visitor(tree, layers, cell);
        assert(home(visits[i].tile, size) == cell);
    }
}

/// A moving window demands exactly the tiles that its view wants. It requests those that were not in
/// demand before, once each, and releases those that no longer are, once each.
pub proof fn update_reports_the_change(tree: TreeView, layers: Seq<LayerDemand>)
    requires
        tree.wf(),
        tree.accepts(layers),
        separate(tree, layers),
    ensures
        forall|tile: TileCoordinate| #[trigger]
            tree.update(layers).demand().contains(tile) <==> exists|i: int|
                0 <= i < tree.cell_count() && (#[trigger] tree.visits(layers)[i]) == (Visit {
                    tile,
                    wanted: true,
                }),
        forall|tile: TileCoordinate| #[trigger]
            occurrences(tree.update(layers).requested, tile) == occurrences(tree.requested, tile)
                + gained(tree.update(layers).demand(), tree.demand(), tile),
        forall|tile: TileCoordinate| #[trigger]
            occurrences(tree.update(layers).released, tile) == occurrences(tree.released, tile)
                + gained(tree.demand(), tree.update(layers).demand(), tile),
{
    let visits = tree.visits(layers);
    let size = tree.size as nat;
    let after = tree.update(layers);
    window_is_inside(tree, layers);
    assert(distinct_places(visits, size)) by {
        assert forall|i: int, j: int|
            0 <= i < visits.len() && 0 <= j < visits.len() && home(
                (#[trigger] visits[i]).tile,
                size,
            ) == home((#[trigger] visits[j]).tile, size) implies i == j by {
            visits_differ(tree, layers, i, j);
        }
    }
    visits_report(tree, visits);
    assert forall|tile: TileCoordinate|
        #![trigger occurrences(after.requested, tile)]
        #![trigger occurrences(after.released, tile)]
        reports(tree, after, tile) by {}
    assert forall|tile: TileCoordinate| #[trigger]
        after.demand().contains(tile) <==> exists|i: int|
            0 <= i < tree.cell_count() && (#[trigger] visits[i]) == (Visit { tile, wanted: true })
        by {
        if after.demand().contains(tile) {
            let cell = home(tile, size);
            assert(tree.tiles.dom().contains(cell));
            every_place_is_visited(tree, layers, cell);
            let i = visitor(tree, layers, cell);
            assert(after.tiles[home(visits[i].tile, size)] == settled(visits[i]));
            assert(visits[i] == (Visit { tile, wanted: true }));
        }
        if exists|i: int|
            0 <= i < tree.cell_count() && (#[trigger] visits[i]) == (Visit { tile, wanted: true }) {
            let i = choose|i: int|
                0 <= i < tree.cell_count() && (#[trigger] visits[i]) == (Visit {
                    tile,
                    wanted: true,
                });
            assert(tree.tiles.contains_key(home(visits[i].tile, size)));
            assert(after.tiles.dom().contains(home(visits[i].tile, size)));
        }
    }
}

/// Visits that find their places settled change nothing.
proof fn settled_visits_change_nothing(tree: TreeView, visits: Seq<Visit>)
    requires
        inside(tree, visits),
        forall|k: int|
            0 <= k < visits.len() ==> tree.tiles[home(
                (#[trigger] visits[k]).tile,
                tree.size as nat,
            )] == settled(visits[k]),
    ensures
        tree.visit_all(visits) == tree,
    decreases visits.len(),
{
    if visits.len() > 0 {
        let front = visits.drop_last();
        assert forall|k: int| 0 <= k < front.len() implies tree.tiles.contains_key(
            home((#[trigger] front[k]).tile, tree.size as nat),
        ) && tree.tiles[home(front[k].tile, tree.size as nat)] == settled(front[k]) by {
            assert(visits[k] == front[k]);
        }
        settled_visits_change_nothing(tree, front);
        let last = visits[visits.len() - 1];
        assert(last == visits.last());
        assert(tree.visit(last).tiles =~= tree.tiles);
    }
}

/// A window that does not move changes nothing, so that the computation can be skipped while the view
/// rests.
pub proof fn update_is_idempotent(tree: TreeView, layers: Seq<LayerDemand>)
    requires
        tree.wf(),
        tree.accepts(layers),
        separate(tree, layers),
    ensures
        tree.update(layers).update(layers) == tree.update(layers),
{
    let visits = tree.visits(layers);
    let after = tree.update(layers);
    let size = tree.size as nat;
    window_is_inside(tree, layers);
    visits_keep_places(tree, visits);
    assert(distinct_places(visits, size)) by {
        assert forall|i: int, j: int|
            0 <= i < visits.len() && 0 <= j < visits.len() && home(
                (#[trigger] visits[i]).tile,
                size,
            ) == home((#[trigger] visits[j]).tile, size) implies i == j by {
            visits_differ(tree, layers, i, j);
        }
    }
    visits_report(tree, visits);
    assert(after.visits(layers) =~= visits);
    assert(inside(after, visits)) by {
        assert forall|i: int| 0 <= i < visits.len() implies after.tiles.contains_key(
            home((#[trigger] visits[i]).tile, size),
        ) by {
            assert(tree.tiles.dom().contains(home(visits[i].tile, size)));
            assert(after.tiles.dom().contains(home(visits[i].tile, size)));
        }
    }
    settled_visits_change_nothing(after, visits);
}

} // verus!
