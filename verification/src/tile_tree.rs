//! The tiles that a view wants.
//!
//! A tile tree is a window onto every level of detail of every face: `tree_size` tiles wide,
//! centered under the viewer, and wrapping around, so that a tile keeps its place while the window
//! moves. Moving the window decides which tiles are requested from the tile atlas and which are
//! released; afterwards every place is given the best tile that the atlas has loaded.

use vstd::prelude::*;
use crate::coordinate::{invalid_tile, TileCoordinate};
use crate::grid::{
    cell_count, entry_cells, fits, has_cell, tile_cells, Cell, EntryGrid, TileGrid,
};
use crate::tile_atlas::{AtlasView, TerrainConfig, TileAtlas};

verus! {

/// The slot of an entry without a tile.
pub const INVALID_ATLAS_INDEX: u32 = u32::MAX;

/// The level of detail of an entry without a tile.
pub const INVALID_LOD: u32 = u32::MAX;

/// Whether a tile should be loaded into the atlas.
#[derive(Clone, Copy, Debug, PartialEq, Eq, Structural)]
pub enum RequestState {
    /// The tile should be loaded.
    Requested,
    /// The tile does not have to be loaded.
    Released,
}

/// The tile at a place of a tile tree.
#[derive(Clone, Copy, Debug, PartialEq, Eq, Structural)]
pub struct TileState {
    /// The tile that is at the place now.
    pub coordinate: TileCoordinate,
    /// Whether the tile is demanded.
    pub state: RequestState,
}

/// The state of a place that has not been visited.
pub open spec fn no_tile() -> TileState {
    TileState { coordinate: invalid_tile(), state: RequestState::Released }
}

impl Default for TileState {
    fn default() -> (tile: Self)
        ensures
            tile == no_tile(),
    {
        TileState { coordinate: TileCoordinate::invalid(), state: RequestState::Released }
    }
}

/// The best tile that is loaded for a place of a tile tree.
#[derive(Clone, Copy, Debug, PartialEq, Eq, Structural)]
pub struct TileTreeEntry {
    /// The slot of the tile inside the atlas.
    pub atlas_index: u32,
    /// The level of detail of the tile.
    pub atlas_lod: u32,
}

/// The entry of a place for which no tile is loaded.
pub open spec fn no_entry() -> TileTreeEntry {
    TileTreeEntry { atlas_index: INVALID_ATLAS_INDEX, atlas_lod: INVALID_LOD }
}

impl Default for TileTreeEntry {
    fn default() -> (entry: Self)
        ensures
            entry == no_entry(),
    {
        TileTreeEntry { atlas_index: INVALID_ATLAS_INDEX, atlas_lod: INVALID_LOD }
    }
}

/// Configures the view of a terrain.
#[derive(Clone, Copy, Debug, PartialEq, Eq, Structural)]
pub struct TerrainViewConfig {
    /// The number of tiles in each direction per level of detail.
    pub tree_size: u32,
    /// The number of tiles that the geometry may consist of.
    pub geometry_tile_count: u32,
    /// The largest number of refinement passes.
    pub refinement_count: u32,
    /// The number of rows and columns of the grid of a tile.
    pub grid_size: u32,
    /// The level of detail at which the position of the view is given to the shaders.
    pub view_lod: u32,
    /// The priority of the terrain among those that overlap.
    pub order: u32,
}

/// What a view demands of one level of detail of one face.
pub struct LayerDemand {
    /// The column of the first tile of the window.
    pub x: i32,
    /// The row of the first tile of the window.
    pub y: i32,
    /// Whether the tiles of the window are close enough to be loaded, column by column.
    pub near: Vec<bool>,
}

/// The place of a column or row in a window that wraps around: the position as a machine word,
/// modulo the size of the window.
pub open spec fn wrapped(position: i32, size: nat) -> int
    recommends
        size > 0,
{
    if position >= 0 {
        position as int % size as int
    } else {
        (usize::MAX + 1 + position) % size as int
    }
}

/// The place of a tile.
pub open spec fn home(tile: TileCoordinate, size: nat) -> Cell {
    (
        tile.face as usize,
        tile.lod as usize,
        wrapped(tile.x, size) as usize,
        wrapped(tile.y, size) as usize,
    )
}

/// A visit of a place while the window moves: the tile that comes to the place, and whether the
/// view wants it.
pub struct Visit {
    pub tile: TileCoordinate,
    pub wanted: bool,
}

/// The state of a tile tree.
pub struct TreeView {
    pub faces: u32,
    pub lods: u32,
    pub size: u32,
    /// The tiles at the places of the tree.
    pub tiles: Map<Cell, TileState>,
    /// The best loaded tiles at the places of the tree.
    pub entries: Map<Cell, TileTreeEntry>,
    /// The tiles that are no longer required, not yet reported to the atlas.
    pub released: Seq<TileCoordinate>,
    /// The tiles that are newly required, not yet reported to the atlas.
    pub requested: Seq<TileCoordinate>,
    /// Whether the tiles have been computed at all.
    pub computed: bool,
    /// Whether the tiles were computed in this frame.
    pub updated: bool,
    /// Whether the entries were rewritten in this frame.
    pub adjusted: bool,
    /// Whether the view changed in this frame.
    pub view_changed: bool,
}

/// The number of the layer of a visit.
pub open spec fn layer_of(i: int, size: nat) -> int {
    i / (size * size) as int
}

/// The column of a visit inside its window.
pub open spec fn column_of(i: int, size: nat) -> int {
    i / size as int % size as int
}

/// The row of a visit inside its window.
pub open spec fn row_of(i: int, size: nat) -> int {
    i % size as int
}

/// The cell with the given number, counting rows first, then columns, levels of detail and faces.
pub open spec fn cell_at(i: int, lods: nat, size: nat) -> Cell {
    (
        (layer_of(i, size) / lods as int) as usize,
        (layer_of(i, size) % lods as int) as usize,
        column_of(i, size) as usize,
        row_of(i, size) as usize,
    )
}

/// The visit with the given number, in the same order.
pub open spec fn visit_at(layers: Seq<LayerDemand>, i: int, lods: nat, size: nat) -> Visit {
    let layer = layer_of(i, size);
    let lod = layer % lods as int;
    Visit {
        tile: TileCoordinate {
            face: (layer / lods as int) as u32,
            lod: lod as u32,
            x: (layers[layer].x + column_of(i, size)) as i32,
            y: (layers[layer].y + row_of(i, size)) as i32,
        },
        wanted: lod == 0 || layers[layer].near@[column_of(i, size) * size + row_of(i, size)],
    }
}

impl TreeView {
    /// What holds of every tile tree: its grids have its dimensions, and a requested tile is at its
    /// own place.
    pub open spec fn wf(self) -> bool {
        &&& fits(self.faces as nat, self.lods as nat, self.size as nat)
        &&& forall|cell: Cell| #[trigger]
            self.tiles.contains_key(cell) <==> has_cell(
                self.faces as nat,
                self.lods as nat,
                self.size as nat,
                cell,
            )
        &&& forall|cell: Cell| #[trigger]
            self.entries.contains_key(cell) <==> has_cell(
                self.faces as nat,
                self.lods as nat,
                self.size as nat,
                cell,
            )
        &&& forall|cell: Cell| #[trigger]
            self.tiles.contains_key(cell) && self.tiles[cell].state is Requested ==> home(
                self.tiles[cell].coordinate,
                self.size as nat,
            ) == cell
    }

    /// The number of places.
    pub open spec fn cell_count(self) -> nat {
        cell_count(self.faces as nat, self.lods as nat, self.size as nat)
    }

    /// The best loaded tiles at all places, in the order in which the shaders read them.
    pub open spec fn entry_list(self) -> Seq<TileTreeEntry> {
        Seq::new(
            self.cell_count(),
            |i: int| self.entries[cell_at(i, self.lods as nat, self.size as nat)],
        )
    }

    /// The tiles that the tree demands.
    pub open spec fn demand(self) -> Set<TileCoordinate> {
        Set::new(
            |tile: TileCoordinate|
                self.tiles.contains_key(home(tile, self.size as nat)) && self.tiles[home(
                    tile,
                    self.size as nat,
                )] == (TileState { coordinate: tile, state: RequestState::Requested }),
        )
    }

    /// Whether this is a tile tree of the given dimensions that has not been computed. It counts as
    /// changed, so that its entries are written at once.
    pub open spec fn is_new(self, faces: u32, lods: u32, size: u32) -> bool {
        &&& self.faces == faces
        &&& self.lods == lods
        &&& self.size == size
        &&& forall|cell: Cell| #[trigger]
            self.tiles.contains_key(cell) ==> self.tiles[cell] == no_tile()
        &&& forall|cell: Cell| #[trigger]
            self.entries.contains_key(cell) ==> self.entries[cell] == no_entry()
        &&& self.released.len() == 0
        &&& self.requested.len() == 0
        &&& !self.computed
        &&& self.updated
        &&& self.adjusted
        &&& self.view_changed
    }

    /// The size in bytes of the buffer that holds the entries.
    pub open spec fn buffer_size(self) -> nat {
        self.cell_count() * 8
    }

    /// Whether the shaders have to be given the entries or the view anew.
    pub open spec fn must_upload(self) -> bool {
        self.adjusted || self.view_changed
    }

    /// The tree in a frame in which its entries are not rewritten.
    pub open spec fn unadjusted(self) -> TreeView {
        TreeView { adjusted: false, ..self }
    }

    /// Whether the layers describe a window onto every level of detail of every face.
    pub open spec fn accepts(self, layers: Seq<LayerDemand>) -> bool {
        &&& layers.len() == self.faces * self.lods
        &&& forall|layer: int|
            0 <= layer < layers.len() ==> {
                &&& (#[trigger] layers[layer]).near@.len() == self.size * self.size
                &&& layers[layer].x + self.size - 1 <= i32::MAX
                &&& layers[layer].y + self.size - 1 <= i32::MAX
            }
    }

    /// The visits of all places while the window moves.
    pub open spec fn visits(self, layers: Seq<LayerDemand>) -> Seq<Visit> {
        Seq::new(
            self.cell_count(),
            |i: int| visit_at(layers, i, self.lods as nat, self.size as nat),
        )
    }

    /// A tile comes to its place. The tile that was there is released, if it was requested; the new
    /// one is requested or released as the view wants.
    pub open spec fn visit(self, visit: Visit) -> TreeView {
        let cell = home(visit.tile, self.size as nat);
        let old = self.tiles[cell];
        let moved = old.coordinate != visit.tile;
        let was_requested = old.state is Requested;
        TreeView {
            tiles: self.tiles.insert(
                cell,
                TileState {
                    coordinate: visit.tile,
                    state: if visit.wanted {
                        RequestState::Requested
                    } else {
                        RequestState::Released
                    },
                },
            ),
            released: if was_requested && (moved || !visit.wanted) {
                self.released.push(old.coordinate)
            } else {
                self.released
            },
            requested: if visit.wanted && (moved || !was_requested) {
                self.requested.push(visit.tile)
            } else {
                self.requested
            },
            ..self
        }
    }

    /// Visits places one after the other.
    pub open spec fn visit_all(self, visits: Seq<Visit>) -> TreeView
        decreases visits.len(),
    {
        if visits.len() == 0 {
            self
        } else {
            self.visit_all(visits.drop_last()).visit(visits.last())
        }
    }

    /// The window moves.
    pub open spec fn update(self, layers: Seq<LayerDemand>) -> TreeView {
        self.visit_all(self.visits(layers))
    }

    /// Whether the tiles have to be computed, given whether the view has strayed from where they
    /// were computed last.
    pub open spec fn must_update(self, strayed: bool) -> bool {
        !self.computed || strayed
    }

    /// The tree at the beginning of a frame.
    pub open spec fn refresh(
        self,
        view_changed: bool,
        strayed: bool,
        layers: Seq<LayerDemand>,
    ) -> TreeView {
        let updated = self.must_update(strayed);
        let marked = TreeView { view_changed, updated, computed: true, ..self };
        if updated {
            marked.update(layers)
        } else {
            marked
        }
    }

    /// The tree after the atlas has taken over the tiles that it reports.
    pub open spec fn reported(self) -> TreeView {
        TreeView { released: Seq::empty(), requested: Seq::empty(), ..self }
    }

    /// Whether the entries have to be rewritten, given whether the loaded tiles of the terrain changed.
    pub open spec fn must_adjust(self, terrain_changed: bool) -> bool {
        self.updated || terrain_changed
    }

    /// The tree after the atlas has changed.
    pub open spec fn adjust(self, atlas: AtlasView, terrain_changed: bool) -> TreeView {
        let adjusted = self.must_adjust(terrain_changed);
        TreeView {
            adjusted,
            entries: if adjusted {
                Map::new(
                    |cell: Cell| self.tiles.contains_key(cell),
                    |cell: Cell| atlas.best_tile(self.tiles[cell].coordinate),
                )
            } else {
                self.entries
            },
            ..self
        }
    }
}

/// The parts of the number of a visit are inside the tree.
pub proof fn place_bounds(i: int, faces: nat, lods: nat, size: nat)
    requires
        0 <= i < cell_count(faces, lods, size),
        0 < lods,
    ensures
        0 <= layer_of(i, size) < faces * lods,
        0 <= layer_of(i, size) / lods as int,
        layer_of(i, size) / (lods as int) < faces,
        0 <= layer_of(i, size) % (lods as int) < lods,
        0 <= column_of(i, size) < size,
        0 <= row_of(i, size) < size,
        0 <= column_of(i, size) * size + row_of(i, size) < size * size,
        has_cell(faces, lods, size, cell_at(i, lods, size)) || faces > usize::MAX || lods
            > usize::MAX || size > usize::MAX,
{
    let area = (size * size) as int;
    assert(size > 0) by (nonlinear_arith)
        requires
            0 < faces * lods * (size * size),
            size >= 0,
    ;
    assert(area > 0) by (nonlinear_arith)
        requires
            area == size * size,
            size > 0,
    ;
    let layers = (faces * lods) as int;
    let layer = layer_of(i, size);
    assert(i < area * layers) by (nonlinear_arith)
        requires
            i < layers * area,
    ;
    vstd::arithmetic::div_mod::lemma_multiply_divide_lt(i, area, layers);
    vstd::arithmetic::div_mod::lemma_div_pos_is_pos(i, area);
    assert(layer < lods * faces) by (nonlinear_arith)
        requires
            layer < layers,
            layers == faces * lods,
    ;
    vstd::arithmetic::div_mod::lemma_multiply_divide_lt(layer, lods as int, faces as int);
    vstd::arithmetic::div_mod::lemma_div_pos_is_pos(layer, lods as int);
    vstd::arithmetic::div_mod::lemma_mod_bound(layer, lods as int);
    vstd::arithmetic::div_mod::lemma_mod_bound(i / size as int, size as int);
    vstd::arithmetic::div_mod::lemma_mod_bound(i, size as int);
    let column = column_of(i, size);
    let row = row_of(i, size);
    assert(0 <= column * size + row < size * size) by (nonlinear_arith)
        requires
            0 <= column < size,
            0 <= row < size,
    ;
}

/// The products that make up the number of places do not overflow.
proof fn count_bounds(faces: nat, lods: nat, size: nat)
    requires
        fits(faces, lods, size),
    ensures
        faces * lods <= isize::MAX,
        size * size <= cell_count(faces, lods, size),
        0 < size ==> 0 < size * size,
        cell_count(faces, lods, size) <= isize::MAX,
        size <= i32::MAX,
{
    assert(0 < size ==> 0 < size * size) by (nonlinear_arith);
    assert(faces * lods > 0) by (nonlinear_arith)
        requires
            faces > 0,
            lods > 0,
    ;
    assert(size * size <= (faces * lods) * (size * size)) by (nonlinear_arith)
        requires
            faces * lods > 0,
    ;
    assert(size <= i32::MAX) by (nonlinear_arith)
        requires
            size * size <= 0x400_0000_0000_0000,
    ;
}

/// The place of a column or row in a window that wraps around.
fn wrap(position: i32, size: u32) -> (place: usize)
    requires
        size > 0,
    ensures
        place == wrapped(position, size as nat),
        place < size,
{
    let word: usize = if position >= 0 {
        position as usize
    } else {
        let below: i32 = -(position + 1);
        usize::MAX - below as usize
    };
    word % size as usize
}

/// A quadtree-like view of a terrain, which requests and releases tiles of the atlas as the viewer
/// moves, and knows the best loaded tile for every place around the viewer.
pub struct TileTree {
    data: EntryGrid,
    tiles: TileGrid,
    released_tiles: Vec<TileCoordinate>,
    requested_tiles: Vec<TileCoordinate>,
    face_count: u32,
    lod_count: u32,
    config: TerrainViewConfig,
    refinement_count: u32,
    computed: bool,
    updated_this_frame: bool,
    adjusted_this_frame: bool,
    view_changed_this_frame: bool,
}

impl View for TileTree {
    type V = TreeView;

    closed spec fn view(&self) -> TreeView {
        TreeView {
            faces: self.face_count,
            lods: self.lod_count,
            size: self.config.tree_size,
            tiles: tile_cells(self.tiles),
            entries: entry_cells(self.data),
            released: self.released_tiles@,
            requested: self.requested_tiles@,
            computed: self.computed,
            updated: self.updated_this_frame,
            adjusted: self.adjusted_this_frame,
            view_changed: self.view_changed_this_frame,
        }
    }
}

/// The number of refinement passes that a view needs.
///
/// Each pass advances the geometry by one level of detail, and a tile that still subdivides in the
/// last pass leaves a hole. The passes must cover the deepest level that is demanded, `deepest`
/// (if the demand is a number at all), and never less than the levels of the terrain. The
/// configured number stays as an upper bound.
pub open spec fn needed_refinements(configured: u32, deepest: Option<i64>, lod_count: u32) -> int {
    let terrain = lod_count - 1;
    let covered = match deepest {
        Some(lod) if lod > terrain => lod as int,
        _ => terrain,
    };
    if configured < covered + 1 {
        configured as int
    } else {
        covered + 1
    }
}

/// The number of refinement passes that a view needs.
pub fn refinement_count(configured: u32, deepest: Option<i64>, lod_count: u32) -> (count: u32)
    requires
        lod_count > 0,
    ensures
        count == needed_refinements(configured, deepest, lod_count),
{
    let mut covered: i64 = (lod_count - 1) as i64;
    if let Some(lod) = deepest {
        if lod > covered {
            covered = lod;
        }
    }
    if (configured as i64) <= covered {
        configured
    } else {
        (covered + 1) as u32
    }
}

impl TileTree {
    /// The configuration of the view.
    pub closed spec fn spec_config(&self) -> TerrainViewConfig {
        self.config
    }

    /// The number of refinement passes.
    pub closed spec fn spec_refinement_count(&self) -> u32 {
        self.refinement_count
    }

    /// A tile tree for a terrain with the given number of faces. `deepest` is the finest level of
    /// detail that the geometry can demand.
    pub fn new(
        config: &TerrainConfig,
        view_config: &TerrainViewConfig,
        face_count: u32,
        deepest: Option<i64>,
    ) -> (tree: Self)
        requires
            fits(face_count as nat, config.lod_count as nat, view_config.tree_size as nat),
        ensures
            tree@.wf(),
            tree@.is_new(face_count, config.lod_count, view_config.tree_size),
            tree@.faces == face_count,
            tree@.lods == config.lod_count,
            tree@.size == view_config.tree_size,
            forall|cell: Cell| #[trigger]
                tree@.tiles.contains_key(cell) ==> tree@.tiles[cell] == no_tile(),
            forall|cell: Cell| #[trigger]
                tree@.entries.contains_key(cell) ==> tree@.entries[cell] == no_entry(),
            tree@.released.len() == 0,
            tree@.requested.len() == 0,
            !tree@.computed,
            tree@.updated,
            tree@.adjusted,
            tree@.view_changed,
            tree.spec_config() == *view_config,
            tree.spec_refinement_count() == needed_refinements(
                view_config.refinement_count,
                deepest,
                config.lod_count,
            ),
    {
        let size: usize = view_config.tree_size as usize;
        TileTree {
            data: EntryGrid::new(face_count as usize, config.lod_count as usize, size),
            tiles: TileGrid::new(face_count as usize, config.lod_count as usize, size),
            released_tiles: Vec::new(),
            requested_tiles: Vec::new(),
            face_count,
            lod_count: config.lod_count,
            config: *view_config,
            refinement_count: refinement_count(
                view_config.refinement_count,
                deepest,
                config.lod_count,
            ),
            computed: false,
            updated_this_frame: true,
            adjusted_this_frame: true,
            view_changed_this_frame: true,
        }
    }

    /// A tile comes to its place.
    fn visit(&mut self, tile_coordinate: TileCoordinate, wanted: bool)
        requires
            old(self)@.size > 0,
            old(self)@.tiles.contains_key(home(tile_coordinate, old(self)@.size as nat)),
        ensures
            final(self)@ == old(self)@.visit(Visit { tile: tile_coordinate, wanted }),
            final(self).spec_config() == old(self).spec_config(),
            final(self).spec_refinement_count() == old(self).spec_refinement_count(),
    {
        let cell: Cell = (
            tile_coordinate.face as usize,
            tile_coordinate.lod as usize,
            wrap(tile_coordinate.x, self.config.tree_size),
            wrap(tile_coordinate.y, self.config.tree_size),
        );
        let mut tile = self.tiles.get(cell);
        if tile_coordinate != tile.coordinate {
            if tile.state == RequestState::Requested {
                tile.state = RequestState::Released;
                self.released_tiles.push(tile.coordinate);
            }
            tile.coordinate = tile_coordinate;
        }
        if tile.state == RequestState::Released && wanted {
            tile.state = RequestState::Requested;
            self.requested_tiles.push(tile.coordinate);
        } else if tile.state == RequestState::Requested && !wanted {
            tile.state = RequestState::Released;
            self.released_tiles.push(tile.coordinate);
        }
        self.tiles.set(cell, tile);
    }

    /// Moves the window: every place is given its new tile, and tiles are requested or released as
    /// the view wants. The tiles of the coarsest level are always wanted.
    pub fn update(&mut self, layers: &Vec<LayerDemand>)
        requires
            old(self)@.wf(),
            old(self)@.accepts(layers@),
        ensures
            final(self)@ == old(self)@.update(layers@),
            final(self)@.wf(),
            final(self).spec_config() == old(self).spec_config(),
            final(self).spec_refinement_count() == old(self).spec_refinement_count(),
    {
        let ghost start = self@;
        let ghost visits = start.visits(layers@);
        let ghost faces = start.faces as nat;
        let ghost lods = start.lods as nat;
        let ghost width = start.size as nat;
        let size: usize = self.config.tree_size as usize;
        proof {
            count_bounds(faces, lods, width);
        }
        let area: usize = size * size;
        let layer_count: usize = self.face_count as usize * self.lod_count as usize;
        let count: usize = layer_count * area;
        let mut i: usize = 0;
        assert(visits.take(0) =~= Seq::<Visit>::empty());
        while i < count
            invariant
                i <= count,
                start.wf(),
                start.accepts(layers@),
                start == old(self)@,
                visits == start.visits(layers@),
                faces == start.faces,
                lods == start.lods,
                width == start.size,
                size == width,
                size <= i32::MAX,
                area == size * size,
                0 < size ==> 0 < area,
                count == start.cell_count(),
                self@ == start.visit_all(visits.take(i as int)),
                self@.wf(),
                self@.faces == start.faces,
                self@.lods == start.lods,
                self@.size == start.size,
                self.spec_config() == old(self).spec_config(),
                self.spec_refinement_count() == old(self).spec_refinement_count(),
            decreases count - i,
        {
            proof {
                place_bounds(i as int, faces, lods, width);
                assert(layers@[layer_of(i as int, width)].near@.len() == width * width);
            }
            let layer: usize = i / area;
            let column: usize = i / size % size;
            let row: usize = i % size;
            let face: usize = layer / self.lod_count as usize;
            let lod: usize = layer % self.lod_count as usize;
            assert(column * size + row < area);
            let demand = &layers[layer];
            let tile = TileCoordinate::new(
                face as u32,
                lod as u32,
                demand.x + column as i32,
                demand.y + row as i32,
            );
            let wanted = lod == 0 || demand.near[column * size + row];
            assert(visits[i as int] == (Visit { tile, wanted }));
            proof {
                let cell = home(tile, width);
                wrapped_bounds(tile.x, width);
                wrapped_bounds(tile.y, width);
                assert(has_cell(faces, lods, width, cell));
                visit_keeps_wf(self@, Visit { tile, wanted });
            }
            self.visit(tile, wanted);
            assert(visits.take(i + 1).drop_last() =~= visits.take(i as int));
            i += 1;
        }
        assert(visits.take(i as int) =~= visits);
    }

    /// Whether the tiles have to be computed anew.
    pub fn needs_update(&self, strayed: bool) -> (needed: bool)
        ensures
            needed == self@.must_update(strayed),
    {
        !self.computed || strayed
    }

    /// Begins a frame, given whether an input of the view changed and whether the view has strayed
    /// from where the tiles were computed last.
    ///
    /// Tiles are requested and released nowhere else, so the computation can be skipped while the
    /// view rests.
    pub fn refresh_view(&mut self, view_changed: bool, strayed: bool, layers: &Vec<LayerDemand>)
        requires
            old(self)@.wf(),
            old(self)@.must_update(strayed) ==> old(self)@.accepts(layers@),
        ensures
            final(self)@ == old(self)@.refresh(view_changed, strayed, layers@),
            final(self)@.wf(),
            final(self).spec_config() == old(self).spec_config(),
            final(self).spec_refinement_count() == old(self).spec_refinement_count(),
    {
        self.view_changed_this_frame = view_changed;
        self.updated_this_frame = self.needs_update(strayed);
        self.computed = true;
        proof {
            same_grids_keep_wf(old(self)@, self@);
        }
        if self.updated_this_frame {
            self.update(layers);
        }
    }

    /// Whether the entries have to be rewritten in this frame, given whether the loaded tiles of the
    /// terrain changed.
    pub fn needs_adjustment(&self, terrain_changed: bool) -> (needed: bool)
        ensures
            needed == self@.must_adjust(terrain_changed),
    {
        self.updated_this_frame || terrain_changed
    }

    /// Gives every place the best tile that the atlas has loaded for it, if the tiles of the tree or
    /// the loaded tiles of the terrain changed in this frame. Only then does the terrain need to have
    /// an atlas.
    pub fn adjust_to_tile_atlas(&mut self, tile_atlas: Option<&TileAtlas>, terrain_changed: bool)
        requires
            old(self)@.wf(),
            old(self)@.must_adjust(terrain_changed) ==> tile_atlas is Some,
        ensures
            tile_atlas is Some ==> final(self)@ == old(self)@.adjust(
                tile_atlas->Some_0@,
                terrain_changed,
            ),
            tile_atlas is None ==> final(self)@ == old(self)@.unadjusted(),
            tile_atlas is None ==> final(self)@ == (TreeView { adjusted: false, ..old(self)@ }),
            final(self)@.wf(),
            final(self).spec_config() == old(self).spec_config(),
            final(self).spec_refinement_count() == old(self).spec_refinement_count(),
    {
        self.adjusted_this_frame = self.needs_adjustment(terrain_changed);
        proof {
            same_grids_keep_wf(old(self)@, self@);
        }
        if !self.adjusted_this_frame {
            return ;
        }
        let Some(tile_atlas) = tile_atlas else {
            return ;
        };
        let ghost start = self@;
        let ghost lods = start.lods as nat;
        let ghost width = start.size as nat;
        let count: usize = self.count_cells();
        let mut i: usize = 0;
        while i < count
            invariant
                i <= count,
                count == start.cell_count(),
                start.wf(),
                lods == start.lods,
                width == start.size,
                self@.wf(),
                self@ == (TreeView { entries: self@.entries, ..start }),
                forall|j: int|
                    0 <= j < i ==> self@.entries[#[trigger] cell_at(j, lods, width)]
                        == tile_atlas@.best_tile(start.tiles[cell_at(j, lods, width)].coordinate),
                self.spec_config() == old(self).spec_config(),
                self.spec_refinement_count() == old(self).spec_refinement_count(),
            decreases count - i,
        {
            let cell = self.cell(i);
            let tile = self.tiles.get(cell);
            self.data.set(cell, tile_atlas.get_best_tile(tile.coordinate));
            i += 1;
        }
        proof {
            let done = start.adjust(tile_atlas@, true);
            assert forall|cell: Cell| #[trigger] self@.entries.contains_key(cell) implies
                self@.entries[cell] == done.entries[cell] by {
                cell_numbers(start.faces as nat, lods, width, cell);
                let j = cell_number(cell, lods, width);
                assert(cell_at(j, lods, width) == cell);
            }
            assert(self@.entries =~= done.entries);
        }
    }

    /// The number of places.
    fn count_cells(&self) -> (count: usize)
        requires
            self@.wf(),
        ensures
            count == self@.cell_count(),
    {
        proof {
            count_bounds(self@.faces as nat, self@.lods as nat, self@.size as nat);
        }
        let size: usize = self.config.tree_size as usize;
        self.face_count as usize * self.lod_count as usize * (size * size)
    }

    /// The place with the given number.
    fn cell(&self, i: usize) -> (cell: Cell)
        requires
            self@.wf(),
            i < self@.cell_count(),
        ensures
            cell == cell_at(i as int, self@.lods as nat, self@.size as nat),
            self@.tiles.contains_key(cell),
            self@.entries.contains_key(cell),
    {
        proof {
            count_bounds(self@.faces as nat, self@.lods as nat, self@.size as nat);
            place_bounds(i as int, self@.faces as nat, self@.lods as nat, self@.size as nat);
        }
        let size: usize = self.config.tree_size as usize;
        let layer: usize = i / (size * size);
        (
            layer / self.lod_count as usize,
            layer % self.lod_count as usize,
            i / size % size,
            i % size,
        )
    }

    /// The best loaded tiles at all places, in the order in which the shaders read them: rows first,
    /// then columns, levels of detail and faces.
    pub fn entries(&self) -> (entries: Vec<TileTreeEntry>)
        requires
            self@.wf(),
        ensures
            entries@ == self@.entry_list(),
            entries@ == Seq::new(
                self@.cell_count(),
                |i: int| self@.entries[cell_at(i, self@.lods as nat, self@.size as nat)],
            ),
    {
        let count: usize = self.count_cells();
        let mut entries: Vec<TileTreeEntry> = Vec::new();
        let mut i: usize = 0;
        while i < count
            invariant
                i <= count,
                count == self@.cell_count(),
                self@.wf(),
                entries@ == Seq::new(
                    i as nat,
                    |i: int| self@.entries[cell_at(i, self@.lods as nat, self@.size as nat)],
                ),
            decreases count - i,
        {
            let cell = self.cell(i);
            entries.push(self.data.get(cell));
            i += 1;
            assert(entries@ =~= Seq::new(
                i as nat,
                |i: int| self@.entries[cell_at(i, self@.lods as nat, self@.size as nat)],
            ));
        }
        entries
    }

    /// The size in bytes of the buffer that holds the entries.
    pub fn entry_buffer_size(&self) -> (size: u64)
        requires
            self@.wf(),
        ensures
            size == self@.buffer_size(),
            size == self@.cell_count() * 8,
    {
        self.count_cells() as u64 * 8
    }

    /// Whether the buffers of the view have to be written again. An untouched buffer keeps its
    /// contents.
    pub fn needs_upload(&self) -> (needed: bool)
        ensures
            needed == self@.must_upload(),
            needed == (self@.adjusted || self@.view_changed),
    {
        self.adjusted_this_frame || self.view_changed_this_frame
    }

    /// The configuration of the view.
    pub fn config(&self) -> (config: &TerrainViewConfig)
        ensures
            *config == self.spec_config(),
    {
        &self.config
    }

    /// The number of refinement passes.
    pub fn refinement_count(&self) -> (count: u32)
        ensures
            count == self.spec_refinement_count(),
    {
        self.refinement_count
    }

    /// Hands out the tiles that are no longer required, and forgets them.
    pub(crate) fn drain_released(&mut self) -> (tiles: Vec<TileCoordinate>)
        ensures
            tiles@ == old(self)@.released,
            final(self)@ == (TreeView { released: Seq::empty(), ..old(self)@ }),
            final(self).spec_config() == old(self).spec_config(),
            final(self).spec_refinement_count() == old(self).spec_refinement_count(),
    {
        let mut tiles: Vec<TileCoordinate> = Vec::new();
        std::mem::swap(&mut tiles, &mut self.released_tiles);
        tiles
    }

    /// Hands out the tiles that are newly required, and forgets them.
    pub(crate) fn drain_requested(&mut self) -> (tiles: Vec<TileCoordinate>)
        ensures
            tiles@ == old(self)@.requested,
            final(self)@ == (TreeView { requested: Seq::empty(), ..old(self)@ }),
            final(self).spec_config() == old(self).spec_config(),
            final(self).spec_refinement_count() == old(self).spec_refinement_count(),
    {
        let mut tiles: Vec<TileCoordinate> = Vec::new();
        std::mem::swap(&mut tiles, &mut self.requested_tiles);
        tiles
    }
}

/// The number of a place.
pub open spec fn cell_number(cell: Cell, lods: nat, size: nat) -> int {
    ((cell.0 * lods + cell.1) * size + cell.2) * size + cell.3
}

/// Every place has a number, and is the one with that number.
pub proof fn cell_numbers(faces: nat, lods: nat, size: nat, cell: Cell)
    requires
        has_cell(faces, lods, size, cell),
    ensures
        0 <= cell_number(cell, lods, size) < cell_count(faces, lods, size),
        cell_at(cell_number(cell, lods, size), lods, size) == cell,
{
    let layer = cell.0 * lods + cell.1;
    let line = layer * size + cell.2;
    let i = cell_number(cell, lods, size);
    assert(i == line * size + cell.3);
    assert(0 <= layer <= faces * lods - 1) by (nonlinear_arith)
        requires
            layer == cell.0 * lods + cell.1,
            cell.0 <= faces - 1,
            cell.1 <= lods - 1,
            lods > 0,
    ;
    assert(0 <= line <= faces * lods * size - 1) by (nonlinear_arith)
        requires
            line == layer * size + cell.2,
            0 <= layer <= faces * lods - 1,
            cell.2 <= size - 1,
    ;
    assert(0 <= i <= faces * lods * (size * size) - 1) by (nonlinear_arith)
        requires
            i == line * size + cell.3,
            0 <= line <= faces * lods * size - 1,
            cell.3 <= size - 1,
    ;
    vstd::arithmetic::div_mod::lemma_fundamental_div_mod_converse(
        i,
        size as int,
        line,
        cell.3 as int,
    );
    vstd::arithmetic::div_mod::lemma_fundamental_div_mod_converse(
        line,
        size as int,
        layer,
        cell.2 as int,
    );
    vstd::arithmetic::div_mod::lemma_fundamental_div_mod_converse(
        layer,
        lods as int,
        cell.0 as int,
        cell.1 as int,
    );
    vstd::arithmetic::div_mod::lemma_div_denominator(i, size as int, size as int);
}

/// The place of a column or row is inside the window.
pub proof fn wrapped_bounds(position: i32, size: nat)
    requires
        size > 0,
    ensures
        0 <= wrapped(position, size) < size,
{
    if position >= 0 {
        vstd::arithmetic::div_mod::lemma_mod_bound(position as int, size as int);
    } else {
        vstd::arithmetic::div_mod::lemma_mod_bound(usize::MAX + 1 + position, size as int);
    }
}

/// A visit keeps the tile tree well formed.
pub proof fn visit_keeps_wf(tree: TreeView, visit: Visit)
    requires
        tree.wf(),
        tree.tiles.contains_key(home(visit.tile, tree.size as nat)),
    ensures
        tree.visit(visit).wf(),
{
}

/// Whether a tile tree is well formed depends on its grids alone.
proof fn same_grids_keep_wf(before: TreeView, after: TreeView)
    requires
        before.wf(),
        after.faces == before.faces,
        after.lods == before.lods,
        after.size == before.size,
        after.tiles == before.tiles,
        after.entries == before.entries,
    ensures
        after.wf(),
{
}

} // verus!
