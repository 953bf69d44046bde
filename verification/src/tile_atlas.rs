//! The storage of all loaded tiles of a terrain.
//!
//! A tile is present as soon as a tile tree requests it: it gets a slot of the atlas, and loads are
//! issued for all of its attachments. A tile that no tile tree uses anymore stays cached, until its
//! slot is the one that was released first and a new tile needs it.

use vstd::prelude::*;
use vstd::multiset::Multiset;
use std::collections::VecDeque;
use bevy::platform::collections::{HashMap, HashSet};
use crate::attachment::{
    Attachment, AttachmentConfig, AttachmentData, AttachmentLabel, AttachmentTile,
    AttachmentTileView, AttachmentTileWithData, LabelView, well_separated,
};
use crate::collections::{
    attachment_map, collect_tile_set, get_attachment, get_tile, insert_attachment, insert_tile,
    key_labels, keys_of_attachments, new_attachment_map, new_tile_map, remove_tile,
    set_has_tile, tile_map, tile_set, tiles_of_map, LabelKey, TileKey,
};
use crate::coordinate::{invalid_tile, parent_tile, TileCoordinate};
use crate::plugin::TerrainSettings;
use crate::tile_tree::{no_entry, TileTree, TileTreeEntry};

verus! {

/// The number of attachment bytes that may be staged for upload per frame, unless a single attachment
/// exceeds it. It bounds the cost of writing the textures; a whole burst of loads in one frame would
/// stall it.
pub const UPLOAD_BUDGET_BYTES: usize = 8388608;

/// Whether a tile of the atlas is loading or ready to be used.
#[derive(Clone, Copy, Debug, PartialEq, Eq, Structural)]
pub enum LoadingState {
    /// The given number of attachments is still missing.
    Loading(u32),
    /// All attachments are there.
    Loaded,
}

/// The state of a tile that is present in the atlas.
#[derive(Clone, Copy, Debug, PartialEq, Eq, Structural)]
pub struct TileState {
    pub state: LoadingState,
    /// The slot of the tile inside the atlas.
    pub atlas_index: u32,
    /// The number of tile trees that have requested the tile.
    pub requests: u32,
    /// Identifies the request that created this state. Only loads of the same generation count: a
    /// coordinate can be evicted and requested again while loads for its predecessor are still on
    /// their way.
    pub generation: u32,
}

/// The tile of a terrain became ready to be used.
#[derive(Clone, Copy, Debug, PartialEq, Eq, Structural)]
pub struct TerrainTileReady {
    pub terrain: u64,
    pub coordinate: TileCoordinate,
    pub atlas_index: u32,
}

/// The tile of a terrain that was ready lost its slot.
#[derive(Clone, Copy, Debug, PartialEq, Eq, Structural)]
pub struct TerrainTileDropped {
    pub terrain: u64,
    pub coordinate: TileCoordinate,
    pub atlas_index: u32,
}

/// Describes a terrain.
pub struct TerrainConfig {
    /// The directory of the terrain.
    pub path: String,
    pub lod_count: u32,
    /// The attachments of the terrain.
    pub attachments: Vec<(AttachmentLabel, AttachmentConfig)>,
    /// All tiles of the terrain.
    pub tiles: Vec<TileCoordinate>,
}

/// The state of a tile atlas.
pub struct AtlasView {
    /// The number of slots.
    pub size: u32,
    /// The number of levels of detail.
    pub lod_count: u32,
    /// The attachments that every tile has.
    pub attachments: Map<LabelView, Attachment>,
    /// The tiles of the terrain.
    pub existing: Set<TileCoordinate>,
    /// The tiles that occupy a slot.
    pub tiles: Map<TileCoordinate, TileState>,
    /// The slots that no tile tree uses, in the order in which they were released.
    pub unused: Seq<u32>,
    /// The number of tiles that were given a slot, modulo the range of the counter.
    pub generation: u32,
    /// The loads that were issued and not yet started.
    pub to_load: Multiset<AttachmentTileView>,
    /// The loaded attachments that wait to be staged.
    pub pending: Seq<(AttachmentTile, AttachmentData)>,
    /// The attachments that are staged for upload.
    pub uploading: Seq<AttachmentTileWithData>,
    /// The tiles that became ready, with their slots.
    pub ready: Seq<(TileCoordinate, u32)>,
    /// The ready tiles that lost their slot.
    pub dropped: Seq<(TileCoordinate, u32)>,
}

/// The successor of a generation.
pub open spec fn next_generation(generation: u32) -> u32 {
    if generation == u32::MAX {
        0
    } else {
        (generation + 1) as u32
    }
}

/// The tiles that can be sampled, with their slots.
pub open spec fn loaded_tiles(tiles: Map<TileCoordinate, TileState>) -> Map<TileCoordinate, u32> {
    Map::new(
        |tile: TileCoordinate| tiles.contains_key(tile) && tiles[tile].state is Loaded,
        |tile: TileCoordinate| tiles[tile].atlas_index,
    )
}

/// The entry of the finest loaded tile among `tile` and the tiles that cover it.
pub open spec fn nearest_loaded(
    resident: Map<TileCoordinate, u32>,
    tile: TileCoordinate,
) -> TileTreeEntry
    decreases tile.lod,
{
    if tile == invalid_tile() {
        no_entry()
    } else if resident.contains_key(tile) {
        TileTreeEntry { atlas_index: resident[tile], atlas_lod: tile.lod }
    } else {
        match parent_tile(tile) {
            Some(parent) => nearest_loaded(resident, parent),
            None => no_entry(),
        }
    }
}

impl AtlasView {
    /// The tile that occupies a slot.
    pub open spec fn occupant(self, slot: u32) -> Option<TileCoordinate> {
        if exists|tile: TileCoordinate| self.occupies(tile, slot) {
            Some(choose|tile: TileCoordinate| self.occupies(tile, slot))
        } else {
            None
        }
    }

    /// Whether a tile occupies a slot.
    pub open spec fn occupies(self, tile: TileCoordinate, slot: u32) -> bool {
        self.tiles.contains_key(tile) && self.tiles[tile].atlas_index == slot
    }

    /// Whether a load was issued for the state that its tile has now.
    pub open spec fn current(self, load: AttachmentTile) -> bool {
        self.tiles.contains_key(load.coordinate) && self.tiles[load.coordinate].generation
            == load.generation
    }

    /// The tiles that can be sampled, with their slots.
    pub open spec fn resident(self) -> Map<TileCoordinate, u32> {
        loaded_tiles(self.tiles)
    }

    /// What holds of every atlas: no two tiles share a slot, a slot is unused exactly if no tile
    /// tree requests its tile, no slot is lost, and every attachment that waits to be staged belongs
    /// to the present state of its tile.
    #[verifier::opaque]
    pub open spec fn wf(self) -> bool {
        &&& self.tiles.dom().finite()
        &&& self.attachments.dom().finite()
        &&& self.tiles.dom().subset_of(self.existing)
        &&& self.unused.no_duplicates()
        &&& forall|i: int| 0 <= i < self.unused.len() ==> #[trigger] self.unused[i] < self.size
        &&& forall|tile: TileCoordinate| #[trigger]
            self.tiles.contains_key(tile) ==> self.tiles[tile].atlas_index < self.size && (
            self.tiles[tile].requests == 0 <==> self.unused.contains(self.tiles[tile].atlas_index))
        &&& forall|a: TileCoordinate, b: TileCoordinate|
            #![trigger self.tiles.contains_key(a), self.tiles.contains_key(b)]
            self.tiles.contains_key(a) && self.tiles.contains_key(b) && self.tiles[a].atlas_index
                == self.tiles[b].atlas_index ==> a == b
        &&& forall|slot: u32|
            slot < self.size ==> self.unused.contains(slot) || exists|tile: TileCoordinate|
                #[trigger] self.occupies(tile, slot)
        &&& forall|i: int| 0 <= i < self.pending.len() ==> self.current((#[trigger] self.pending[i]).0)
    }

    /// The best tile that is loaded at the place of `tile`.
    pub open spec fn best_tile(self, tile: TileCoordinate) -> TileTreeEntry {
        if self.existing.contains(tile) {
            nearest_loaded(self.resident(), tile)
        } else {
            no_entry()
        }
    }

    /// The loads that make up a tile.
    pub open spec fn loads_of(
        self,
        tile: TileCoordinate,
        generation: u32,
    ) -> Set<AttachmentTileView> {
        Set::new(
            |load: AttachmentTileView|
                self.attachments.contains_key(load.label) && load.coordinate == tile
                    && load.generation == generation,
        )
    }

    /// Takes the slot away from the tile that occupies it. If the tile was ready, it is reported
    /// dropped; attachments that wait for it are discarded.
    pub open spec fn evict(self, slot: u32) -> AtlasView {
        match self.occupant(slot) {
            None => self,
            Some(tile) => AtlasView {
                tiles: self.tiles.remove(tile),
                dropped: if self.tiles[tile].state is Loaded {
                    self.dropped.push((tile, slot))
                } else {
                    self.dropped
                },
                pending: self.pending.filter(
                    |entry: (AttachmentTile, AttachmentData)| entry.0.coordinate != tile,
                ),
                ..self
            },
        }
    }

    /// Gives the slot to a tile and issues its loads.
    pub open spec fn occupy(self, tile: TileCoordinate, slot: u32) -> AtlasView {
        let generation = next_generation(self.generation);
        AtlasView {
            generation,
            tiles: self.tiles.insert(
                tile,
                TileState {
                    state: LoadingState::Loading(self.attachments.dom().len() as u32),
                    atlas_index: slot,
                    requests: 1,
                    generation,
                },
            ),
            to_load: self.to_load.add(Multiset::from_set(self.loads_of(tile, generation))),
            ..self
        }
    }

    /// Whether a request can be served: there is an unused slot for a tile that is not present.
    pub open spec fn can_request(self, tile: TileCoordinate) -> bool {
        self.existing.contains(tile) ==> if self.tiles.contains_key(tile) {
            self.tiles[tile].requests < u32::MAX
        } else {
            self.unused.len() > 0
        }
    }

    /// One more tile tree uses a tile. Tiles that the terrain does not have are ignored.
    pub open spec fn request(self, tile: TileCoordinate) -> AtlasView {
        if !self.existing.contains(tile) {
            self
        } else if self.tiles.contains_key(tile) {
            let state = self.tiles[tile];
            AtlasView {
                tiles: self.tiles.insert(
                    tile,
                    TileState { requests: (state.requests + 1) as u32, ..state },
                ),
                unused: if state.requests == 0 {
                    self.unused.filter(|slot: u32| slot != state.atlas_index)
                } else {
                    self.unused
                },
                ..self
            }
        } else {
            let slot = self.unused.first();
            let evicted = self.evict(slot);
            AtlasView { unused: self.unused.drop_first(), ..evicted }.occupy(tile, slot)
        }
    }

    /// Whether a tile tree uses the tile, so that it can be released.
    pub open spec fn can_release(self, tile: TileCoordinate) -> bool {
        self.existing.contains(tile) ==> self.tiles.contains_key(tile) && self.tiles[tile].requests
            > 0
    }

    /// One tile tree less uses a tile. The slot of a tile without users becomes unused.
    pub open spec fn release(self, tile: TileCoordinate) -> AtlasView {
        if !self.existing.contains(tile) {
            self
        } else {
            let state = self.tiles[tile];
            AtlasView {
                tiles: self.tiles.insert(
                    tile,
                    TileState { requests: (state.requests - 1) as u32, ..state },
                ),
                unused: if state.requests == 1 {
                    self.unused.push(state.atlas_index)
                } else {
                    self.unused
                },
                ..self
            }
        }
    }

    /// An attachment has been loaded. It is queued, if its tile still has the state for which the
    /// load was issued.
    pub open spec fn receive(self, load: AttachmentTile, data: AttachmentData) -> AtlasView {
        if self.current(load) {
            AtlasView { pending: self.pending.push((load, data)), ..self }
        } else {
            self
        }
    }

    /// Whether an attachment is still missing, so that it can be staged.
    pub open spec fn can_stage(self, load: AttachmentTile) -> bool {
        self.current(load) ==> {
            &&& self.tiles[load.coordinate].state is Loading
            &&& self.tiles[load.coordinate].state->Loading_0 > 0
        }
    }

    /// Stages an attachment. The last missing one makes its tile ready.
    pub open spec fn stage(self, load: AttachmentTile, data: AttachmentData) -> AtlasView {
        if !self.current(load) {
            self
        } else {
            let state = self.tiles[load.coordinate];
            let missing = state.state->Loading_0;
            AtlasView {
                tiles: self.tiles.insert(
                    load.coordinate,
                    TileState {
                        state: if missing == 1 {
                            LoadingState::Loaded
                        } else {
                            LoadingState::Loading((missing - 1) as u32)
                        },
                        ..state
                    },
                ),
                uploading: self.uploading.push(
                    AttachmentTileWithData {
                        atlas_index: state.atlas_index,
                        label: load.label,
                        data,
                    },
                ),
                ready: if missing == 1 {
                    self.ready.push((load.coordinate, state.atlas_index))
                } else {
                    self.ready
                },
                ..self
            }
        }
    }

    /// Stages the attachment that has waited longest.
    pub open spec fn stage_first(self) -> AtlasView {
        AtlasView { pending: self.pending.drop_first(), ..self }.stage(
            self.pending.first().0,
            self.pending.first().1,
        )
    }

    /// Whether the first `count` waiting attachments can be staged one after the other.
    pub open spec fn can_stage_next(self, count: nat) -> bool
        decreases count,
    {
        count > 0 ==> {
            &&& self.pending.len() > 0
            &&& self.can_stage(self.pending.first().0)
            &&& self.stage_first().can_stage_next((count - 1) as nat)
        }
    }

    /// Stages the first `count` waiting attachments.
    pub open spec fn stage_next(self, count: nat) -> AtlasView
        decreases count,
    {
        if count == 0 {
            self
        } else {
            self.stage_first().stage_next((count - 1) as nat)
        }
    }

    /// Whether staging the first `count` waiting attachments comes to an end at `stopped`, before an
    /// attachment that is not missing.
    pub open spec fn stage_stops(self, count: nat, stopped: AtlasView) -> bool
        decreases count,
    {
        &&& count > 0
        &&& if self.pending.len() > 0 && self.can_stage(self.pending.first().0) {
            self.stage_first().stage_stops((count - 1) as nat, stopped)
        } else {
            stopped == self
        }
    }

    /// Releases tiles one after the other.
    pub open spec fn release_all(self, tiles: Seq<TileCoordinate>) -> AtlasView
        decreases tiles.len(),
    {
        if tiles.len() == 0 {
            self
        } else {
            self.release_all(tiles.drop_last()).release(tiles.last())
        }
    }

    /// Whether tiles can be released one after the other.
    pub open spec fn can_release_all(self, tiles: Seq<TileCoordinate>) -> bool
        decreases tiles.len(),
    {
        tiles.len() > 0 ==> {
            &&& self.can_release_all(tiles.drop_last())
            &&& self.release_all(tiles.drop_last()).can_release(tiles.last())
        }
    }

    /// Requests tiles one after the other.
    pub open spec fn request_all(self, tiles: Seq<TileCoordinate>) -> AtlasView
        decreases tiles.len(),
    {
        if tiles.len() == 0 {
            self
        } else {
            self.request_all(tiles.drop_last()).request(tiles.last())
        }
    }

    /// Whether tiles can be requested one after the other.
    pub open spec fn can_request_all(self, tiles: Seq<TileCoordinate>) -> bool
        decreases tiles.len(),
    {
        tiles.len() > 0 ==> {
            &&& self.can_request_all(tiles.drop_last())
            &&& self.request_all(tiles.drop_last()).can_request(tiles.last())
        }
    }

    /// Releases and requests the tiles that a tile tree reports. Releases come first, so that their
    /// slots can be used again.
    pub open spec fn update(
        self,
        released: Seq<TileCoordinate>,
        requested: Seq<TileCoordinate>,
    ) -> AtlasView {
        self.release_all(released).request_all(requested)
    }

    /// Whether the tiles that a tile tree reports can be released and requested.
    pub open spec fn can_update(
        self,
        released: Seq<TileCoordinate>,
        requested: Seq<TileCoordinate>,
    ) -> bool {
        &&& self.can_release_all(released)
        &&& self.release_all(released).can_request_all(requested)
    }

    /// The tiles that are released before the first one that no tile tree uses.
    pub open spec fn releasable(self, tiles: Seq<TileCoordinate>) -> Seq<TileCoordinate>
        decreases tiles.len(),
    {
        if tiles.len() == 0 || self.can_release_all(tiles) {
            tiles
        } else {
            self.releasable(tiles.drop_last())
        }
    }

    /// The tiles that are requested before the first one that cannot be served.
    pub open spec fn requestable(self, tiles: Seq<TileCoordinate>) -> Seq<TileCoordinate>
        decreases tiles.len(),
    {
        if tiles.len() == 0 || self.can_request_all(tiles) {
            tiles
        } else {
            self.requestable(tiles.drop_last())
        }
    }

    /// The tiles that an update requests: none, if it does not get through the releases.
    pub open spec fn update_requests(
        self,
        released: Seq<TileCoordinate>,
        requested: Seq<TileCoordinate>,
    ) -> Seq<TileCoordinate> {
        if self.can_release_all(released) {
            self.release_all(released).requestable(requested)
        } else {
            Seq::empty()
        }
    }

    /// The tiles of the loads that a request issues, with their generation: one for each attachment of
    /// a tile that is not present.
    pub open spec fn issued_by(self, tile: TileCoordinate) -> Seq<(TileCoordinate, u32)> {
        Seq::new(
            if self.existing.contains(tile) && !self.tiles.contains_key(tile) {
                self.attachments.dom().len()
            } else {
                0
            },
            |i: int| (tile, next_generation(self.generation)),
        )
    }

    /// The tiles of the loads that requests issue one after the other.
    pub open spec fn issued_by_all(self, tiles: Seq<TileCoordinate>) -> Seq<(TileCoordinate, u32)>
        decreases tiles.len(),
    {
        if tiles.len() == 0 {
            Seq::empty()
        } else {
            self.issued_by_all(tiles.drop_last()) + self.request_all(tiles.drop_last()).issued_by(
                tiles.last(),
            )
        }
    }
}

impl AtlasView {
    /// Whether this is the atlas of a terrain of which no tile has been requested.
    pub open spec fn is_new(self, config: TerrainConfig, size: u32) -> bool {
        &&& self.size == size
        &&& self.lod_count == config.lod_count
        &&& self.existing == config.tiles@.to_set()
        &&& forall|label: LabelView| #[trigger]
            self.attachments.contains_key(label) <==> exists|i: int|
                0 <= i < config.attachments@.len() && #[trigger] config.label(i) == label
        &&& forall|i: int|
            0 <= i < config.attachments@.len() ==> self.attachments[#[trigger] config.label(
                i,
            )].configured(config.attachments@[i].1, config.path@)
        &&& self.unused == Seq::new(size as nat, |i: int| i as u32)
        &&& self.tiles.dom() == Set::<TileCoordinate>::empty()
        &&& self.to_load == Multiset::<AttachmentTileView>::empty()
        &&& self.pending.len() == 0
        &&& self.uploading.len() == 0
        &&& self.ready.len() == 0
        &&& self.dropped.len() == 0
        &&& self.generation == 0
    }

    /// The atlas after its loads have been started.
    pub open spec fn started(self) -> AtlasView {
        AtlasView { to_load: Multiset::empty(), ..self }
    }

    /// The atlas with other attachments staged for upload.
    pub open spec fn staging(self, tiles: Seq<AttachmentTileWithData>) -> AtlasView {
        AtlasView { uploading: tiles, ..self }
    }

    /// The atlas after its changes have been reported.
    pub open spec fn announced(self) -> AtlasView {
        AtlasView { ready: Seq::empty(), dropped: Seq::empty(), ..self }
    }
}

/// How many waiting attachments are staged in one frame after others with `staged` bytes: those that
/// keep the total within the budget.
pub open spec fn staged_after(pending: Seq<(AttachmentTile, AttachmentData)>, staged: nat) -> nat
    decreases pending.len(),
{
    if pending.len() == 0 || staged + pending.first().1.byte_count() > UPLOAD_BUDGET_BYTES {
        0
    } else {
        1 + staged_after(pending.drop_first(), staged + pending.first().1.byte_count())
    }
}

/// How many waiting attachments are staged in one frame: the first one in any case, so that an
/// oversized one still makes progress, and further ones as long as the total stays within the budget.
pub open spec fn staged_count(pending: Seq<(AttachmentTile, AttachmentData)>) -> nat {
    if pending.len() == 0 {
        0
    } else {
        1 + staged_after(pending.drop_first(), pending.first().1.byte_count())
    }
}

/// How many waiting attachments are still staged in a frame, given whether it has begun to.
spec fn staged_next(
    begun: bool,
    pending: Seq<(AttachmentTile, AttachmentData)>,
    staged: nat,
) -> nat {
    if begun {
        staged_after(pending, staged)
    } else {
        staged_count(pending)
    }
}

/// A slot is occupied by at most one tile, which is the one that the slot gives.
pub proof fn occupant_is_unique(atlas: AtlasView, tile: TileCoordinate, slot: u32)
    requires
        atlas.wf(),
        atlas.occupies(tile, slot),
    ensures
        atlas.occupant(slot) == Some(tile),
{
    reveal(AtlasView::wf);
    let found = choose|tile: TileCoordinate| atlas.occupies(tile, slot);
    assert(atlas.occupies(found, slot));
    assert(atlas.tiles.contains_key(found) && atlas.tiles.contains_key(tile));
}

/// What filtering leaves of a sequence.
proof fn filter_facts<T>(items: Seq<T>, keep: spec_fn(T) -> bool)
    ensures
        forall|item: T| #[trigger]
            items.filter(keep).contains(item) <==> items.contains(item) && keep(item),
        items.no_duplicates() ==> items.filter(keep).no_duplicates(),
    decreases items.len(),
{
    reveal(Seq::filter);
    if items.len() > 0 {
        let front = items.drop_last();
        filter_facts(front, keep);
        let kept = front.filter(keep);
        assert(items =~= front.push(items.last()));
        assert forall|item: T| #[trigger] items.filter(keep).contains(item) <==> items.contains(item)
            && keep(item) by {
            assert(items.contains(item) <==> front.contains(item) || item == items.last()) by {
                if items.contains(item) {
                    let i = choose|i: int| 0 <= i < items.len() && items[i] == item;
                    if i < front.len() {
                        assert(front[i] == item);
                    }
                }
                if front.contains(item) {
                    let i = choose|i: int| 0 <= i < front.len() && front[i] == item;
                    assert(items[i] == item);
                }
                assert(items[items.len() - 1] == items.last());
            }
            if keep(items.last()) {
                assert(items.filter(keep) =~= kept.push(items.last()));
                let pushed = kept.push(items.last());
                if pushed.contains(item) {
                    let i = choose|i: int| 0 <= i < pushed.len() && pushed[i] == item;
                    if i < kept.len() {
                        assert(kept[i] == item);
                    }
                }
                if kept.contains(item) {
                    let i = choose|i: int| 0 <= i < kept.len() && kept[i] == item;
                    assert(pushed[i] == item);
                }
                assert(pushed[kept.len() as int] == items.last());
            } else {
                assert(items.filter(keep) =~= kept);
            }
        }
        if items.no_duplicates() {
            assert(front.no_duplicates());
            assert(!front.contains(items.last()));
            assert(!kept.contains(items.last()));
            if keep(items.last()) {
                assert(items.filter(keep) =~= kept.push(items.last()));
            }
        }
    }
}

/// Filtering keeps a sequence all of whose items are to be kept.
pub proof fn filter_keeps_all<T>(items: Seq<T>, keep: spec_fn(T) -> bool)
    requires
        forall|i: int| 0 <= i < items.len() ==> keep(#[trigger] items[i]),
    ensures
        items.filter(keep) == items,
    decreases items.len(),
{
    reveal(Seq::filter);
    if items.len() > 0 {
        let front = items.drop_last();
        assert forall|i: int| 0 <= i < front.len() implies keep(#[trigger] front[i]) by {
            assert(items[i] == front[i]);
        }
        filter_keeps_all(front, keep);
        assert(items[items.len() - 1] == items.last());
        assert(items =~= front.push(items.last()));
    }
}

/// Taking a slot away from its tile, and out of the unused slots, keeps everything else in order.
pub proof fn evict_facts(atlas: AtlasView, slot: u32)
    requires
        atlas.wf(),
    ensures
        ({
            let evicted = atlas.evict(slot);
            &&& forall|tile: TileCoordinate| #[trigger]
                evicted.tiles.contains_key(tile) <==> atlas.tiles.contains_key(tile)
                    && atlas.tiles[tile].atlas_index != slot
            &&& forall|tile: TileCoordinate| #[trigger]
                evicted.tiles.contains_key(tile) ==> evicted.tiles[tile] == atlas.tiles[tile]
            &&& evicted.tiles.dom().finite()
            &&& forall|i: int|
                0 <= i < evicted.pending.len() ==> evicted.current((#[trigger] evicted.pending[i]).0)
        }),
{
    reveal(AtlasView::wf);
    let evicted = atlas.evict(slot);
    match atlas.occupant(slot) {
        None => {
            assert forall|tile: TileCoordinate| #[trigger]
                evicted.tiles.contains_key(tile) <==> atlas.tiles.contains_key(tile)
                    && atlas.tiles[tile].atlas_index != slot by {
                if atlas.tiles.contains_key(tile) && atlas.tiles[tile].atlas_index == slot {
                    assert(atlas.occupies(tile, slot));
                }
            }
        },
        Some(gone) => {
            assert(atlas.occupies(gone, slot));
            let keep = |entry: (AttachmentTile, AttachmentData)| entry.0.coordinate != gone;
            filter_facts(atlas.pending, keep);
            assert forall|i: int| 0 <= i < evicted.pending.len() implies evicted.current(
                (#[trigger] evicted.pending[i]).0,
            ) by {
                let entry = evicted.pending[i];
                assert(atlas.pending.filter(keep).contains(entry));
                assert(atlas.pending.contains(entry));
                let j = choose|j: int| 0 <= j < atlas.pending.len() && atlas.pending[j] == entry;
                assert(atlas.current(atlas.pending[j].0));
            }
        },
    }
}

/// A request keeps the atlas well formed.
pub proof fn request_keeps_wf(atlas: AtlasView, tile: TileCoordinate)
    requires
        atlas.wf(),
        atlas.can_request(tile),
    ensures
        atlas.request(tile).wf(),
{
    reveal(AtlasView::wf);
    if atlas.existing.contains(tile) {
        let after = atlas.request(tile);
        if atlas.tiles.contains_key(tile) {
            let state = atlas.tiles[tile];
            let keep = |slot: u32| slot != state.atlas_index;
            filter_facts(atlas.unused, keep);
            assert forall|i: int| 0 <= i < after.unused.len() implies #[trigger] after.unused[i]
                < after.size by {
                assert(after.unused.contains(after.unused[i]));
                assert(atlas.unused.contains(after.unused[i]));
            }
            assert forall|slot: u32| slot < after.size implies after.unused.contains(slot)
                || exists|other: TileCoordinate| #[trigger] after.occupies(other, slot) by {
                if exists|other: TileCoordinate| #[trigger] atlas.occupies(other, slot) {
                    let other = choose|other: TileCoordinate| #[trigger]
                        atlas.occupies(other, slot);
                    assert(after.occupies(other, slot));
                } else {
                    assert(atlas.unused.contains(slot));
                    assert(atlas.occupies(tile, state.atlas_index));
                }
            }
            assert forall|i: int| 0 <= i < after.pending.len() implies after.current(
                (#[trigger] after.pending[i]).0,
            ) by {
                assert(atlas.current(atlas.pending[i].0));
            }
        } else {
            let slot = atlas.unused.first();
            assert(atlas.unused[0] == slot);
            let evicted = atlas.evict(slot);
            evict_facts(atlas, slot);
            assert(after.unused =~= atlas.unused.drop_first());
            assert forall|other: u32| #[trigger] after.unused.contains(other) <==>
                atlas.unused.contains(other) && other != slot by {
                if after.unused.contains(other) {
                    let i = choose|i: int| 0 <= i < after.unused.len() && after.unused[i] == other;
                    assert(atlas.unused[i + 1] == other);
                }
                if atlas.unused.contains(other) && other != slot {
                    let i = choose|i: int| 0 <= i < atlas.unused.len() && atlas.unused[i] == other;
                    assert(after.unused[i - 1] == other);
                }
            }
            assert forall|a: TileCoordinate| #[trigger] after.tiles.contains_key(a) implies
                after.tiles[a].atlas_index < after.size && (after.tiles[a].requests == 0
                <==> after.unused.contains(after.tiles[a].atlas_index)) by {
                if a != tile {
                    assert(evicted.tiles.contains_key(a));
                    assert(atlas.tiles.contains_key(a));
                }
            }
            assert forall|a: TileCoordinate, b: TileCoordinate|
                #![trigger after.tiles.contains_key(a), after.tiles.contains_key(b)]
                after.tiles.contains_key(a) && after.tiles.contains_key(b)
                    && after.tiles[a].atlas_index == after.tiles[b].atlas_index implies a == b by {
                if a != tile {
                    assert(evicted.tiles.contains_key(a));
                    assert(atlas.tiles.contains_key(a));
                }
                if b != tile {
                    assert(evicted.tiles.contains_key(b));
                    assert(atlas.tiles.contains_key(b));
                }
            }
            assert forall|other: u32| other < after.size implies after.unused.contains(other)
                || exists|a: TileCoordinate| #[trigger] after.occupies(a, other) by {
                if other == slot {
                    assert(after.occupies(tile, slot));
                } else if !atlas.unused.contains(other) {
                    let a = choose|a: TileCoordinate| #[trigger] atlas.occupies(a, other);
                    assert(evicted.tiles.contains_key(a));
                    assert(after.occupies(a, other));
                }
            }
            assert forall|i: int| 0 <= i < after.pending.len() implies after.current(
                (#[trigger] after.pending[i]).0,
            ) by {
                assert(evicted.current(evicted.pending[i].0));
                assert(evicted.tiles.contains_key(evicted.pending[i].0.coordinate));
            }
        }
    }
}

/// A release keeps the atlas well formed.
pub proof fn release_keeps_wf(atlas: AtlasView, tile: TileCoordinate)
    requires
        atlas.wf(),
        atlas.can_release(tile),
    ensures
        atlas.release(tile).wf(),
{
    reveal(AtlasView::wf);
    if atlas.existing.contains(tile) {
        let after = atlas.release(tile);
        let state = atlas.tiles[tile];
        assert forall|slot: u32| #[trigger] after.unused.contains(slot) <==>
            atlas.unused.contains(slot) || (state.requests == 1 && slot == state.atlas_index) by {
            if atlas.unused.contains(slot) {
                let i = choose|i: int| 0 <= i < atlas.unused.len() && atlas.unused[i] == slot;
                assert(after.unused[i] == slot);
            }
            if state.requests == 1 {
                assert(after.unused[atlas.unused.len() as int] == state.atlas_index);
            }
        }
        assert(!atlas.unused.contains(state.atlas_index));
        assert forall|slot: u32| slot < after.size implies after.unused.contains(slot)
            || exists|other: TileCoordinate| #[trigger] after.occupies(other, slot) by {
            if !atlas.unused.contains(slot) {
                let other = choose|other: TileCoordinate| #[trigger] atlas.occupies(other, slot);
                assert(after.occupies(other, slot));
            }
        }
        assert forall|i: int| 0 <= i < after.pending.len() implies after.current(
            (#[trigger] after.pending[i]).0,
        ) by {
            assert(atlas.current(atlas.pending[i].0));
        }
    }
}

/// A finished load keeps the atlas well formed.
pub proof fn receive_keeps_wf(atlas: AtlasView, load: AttachmentTile, data: AttachmentData)
    requires
        atlas.wf(),
    ensures
        atlas.receive(load, data).wf(),
{
    reveal(AtlasView::wf);
    let after = atlas.receive(load, data);
    assert forall|slot: u32| slot < after.size implies after.unused.contains(slot)
        || exists|other: TileCoordinate| #[trigger] after.occupies(other, slot) by {
        if !atlas.unused.contains(slot) {
            let other = choose|other: TileCoordinate| #[trigger] atlas.occupies(other, slot);
            assert(after.occupies(other, slot));
        }
    }
    assert forall|i: int| 0 <= i < after.pending.len() implies after.current(
        (#[trigger] after.pending[i]).0,
    ) by {
        if i < atlas.pending.len() {
            assert(atlas.current(atlas.pending[i].0));
        }
    }
}

/// Staging the next attachment keeps the atlas well formed.
pub proof fn stage_keeps_wf(atlas: AtlasView)
    requires
        atlas.wf(),
        atlas.pending.len() > 0,
        atlas.can_stage(atlas.pending.first().0),
    ensures
        atlas.stage_first().wf(),
{
    reveal(AtlasView::wf);
    let after = atlas.stage_first();
    let load = atlas.pending.first().0;
    assert(atlas.current(atlas.pending[0].0));
    assert forall|slot: u32| slot < after.size implies after.unused.contains(slot)
        || exists|other: TileCoordinate| #[trigger] after.occupies(other, slot) by {
        if !atlas.unused.contains(slot) {
            let other = choose|other: TileCoordinate| #[trigger] atlas.occupies(other, slot);
            assert(after.occupies(other, slot));
        }
    }
    assert forall|i: int| 0 <= i < after.pending.len() implies after.current(
        (#[trigger] after.pending[i]).0,
    ) by {
        assert(after.pending[i] == atlas.pending[i + 1]);
        assert(atlas.current(atlas.pending[i + 1].0));
    }
}

/// The loads in the order in which they were issued.
pub open spec fn load_views(loads: Seq<AttachmentTile>) -> Seq<AttachmentTileView> {
    loads.map_values(|load: AttachmentTile| load@)
}

/// The messages that report tiles as ready.
pub open spec fn ready_messages(
    terrain: u64,
    tiles: Seq<(TileCoordinate, u32)>,
) -> Seq<TerrainTileReady> {
    tiles.map_values(
        |tile: (TileCoordinate, u32)|
            TerrainTileReady { terrain, coordinate: tile.0, atlas_index: tile.1 },
    )
}

/// The messages that report tiles as dropped.
pub open spec fn dropped_messages(
    terrain: u64,
    tiles: Seq<(TileCoordinate, u32)>,
) -> Seq<TerrainTileDropped> {
    tiles.map_values(
        |tile: (TileCoordinate, u32)|
            TerrainTileDropped { terrain, coordinate: tile.0, atlas_index: tile.1 },
    )
}

/// The tiles of loads, with their generations.
pub open spec fn loaded_for(loads: Seq<AttachmentTileView>) -> Seq<(TileCoordinate, u32)> {
    loads.map_values(|load: AttachmentTileView| (load.coordinate, load.generation))
}

/// Whether loads for the given tiles and generations are added behind others, in that order.
pub open spec fn adds_loads(
    before: Seq<AttachmentTileView>,
    after: Seq<AttachmentTileView>,
    issued: Seq<(TileCoordinate, u32)>,
) -> bool {
    &&& before.is_prefix_of(after)
    &&& loaded_for(after) == loaded_for(before) + issued
}

/// Where tiles can be released, so can the first ones of them.
proof fn can_release_prefix(atlas: AtlasView, tiles: Seq<TileCoordinate>, count: int)
    requires
        0 <= count <= tiles.len(),
        atlas.can_release_all(tiles),
    ensures
        atlas.can_release_all(tiles.take(count)),
    decreases tiles.len(),
{
    if count == tiles.len() {
        assert(tiles.take(count) =~= tiles);
    } else {
        can_release_prefix(atlas, tiles.drop_last(), count);
        assert(tiles.drop_last().take(count) =~= tiles.take(count));
    }
}

/// Tiles are released up to the first that no tile tree uses.
proof fn released_before(atlas: AtlasView, tiles: Seq<TileCoordinate>, count: int)
    requires
        0 <= count < tiles.len(),
        atlas.can_release_all(tiles.take(count)),
        !atlas.can_release_all(tiles.take(count + 1)),
    ensures
        !atlas.can_release_all(tiles),
        atlas.releasable(tiles) == tiles.take(count),
    decreases tiles.len(),
{
    reveal_with_fuel(AtlasView::releasable, 2);
    if atlas.can_release_all(tiles) {
        can_release_prefix(atlas, tiles, count + 1);
    }
    let front = tiles.drop_last();
    assert(front.take(count) =~= tiles.take(count));
    if count == front.len() {
        assert(front =~= tiles.take(count));
    } else {
        assert(front.take(count + 1) =~= tiles.take(count + 1));
        released_before(atlas, front, count);
    }
}

/// Where tiles can be requested, so can the first ones of them.
proof fn can_request_prefix(atlas: AtlasView, tiles: Seq<TileCoordinate>, count: int)
    requires
        0 <= count <= tiles.len(),
        atlas.can_request_all(tiles),
    ensures
        atlas.can_request_all(tiles.take(count)),
    decreases tiles.len(),
{
    if count == tiles.len() {
        assert(tiles.take(count) =~= tiles);
    } else {
        can_request_prefix(atlas, tiles.drop_last(), count);
        assert(tiles.drop_last().take(count) =~= tiles.take(count));
    }
}

/// Tiles are requested up to the first that cannot be served.
proof fn requested_before(atlas: AtlasView, tiles: Seq<TileCoordinate>, count: int)
    requires
        0 <= count < tiles.len(),
        atlas.can_request_all(tiles.take(count)),
        !atlas.can_request_all(tiles.take(count + 1)),
    ensures
        !atlas.can_request_all(tiles),
        atlas.requestable(tiles) == tiles.take(count),
    decreases tiles.len(),
{
    reveal_with_fuel(AtlasView::requestable, 2);
    if atlas.can_request_all(tiles) {
        can_request_prefix(atlas, tiles, count + 1);
    }
    let front = tiles.drop_last();
    assert(front.take(count) =~= tiles.take(count));
    if count == front.len() {
        assert(front =~= tiles.take(count));
    } else {
        assert(front.take(count + 1) =~= tiles.take(count + 1));
        requested_before(atlas, front, count);
    }
}

impl TerrainConfig {
    /// The label of an attachment.
    pub open spec fn label(self, i: int) -> LabelView {
        self.attachments@[i].0@
    }

    /// Whether the attachments have different labels and can be stored.
    pub open spec fn wf(self) -> bool {
        &&& forall|i: int, j: int|
            0 <= i < j < self.attachments@.len() ==> #[trigger] self.label(i) != #[trigger] self.label(
                j,
            )
        &&& forall|i: int|
            0 <= i < self.attachments@.len() ==> (#[trigger] self.attachments@[i]).1.borders_fit()
        &&& self.attachments@.len() > 0 ==> well_separated(self.path@)
    }
}

/// A sparse storage of the tiles of a terrain, which streams data in and out of memory as the tile
/// trees of its views decide.
pub struct TileAtlas {
    attachments: HashMap<LabelKey, Attachment>,
    tile_states: HashMap<TileKey, TileState>,
    unused_indices: VecDeque<u32>,
    existing_tiles: HashSet<TileKey>,
    uploading_tiles: Vec<AttachmentTileWithData>,
    to_load: Vec<AttachmentTile>,
    /// Attachments that finished loading and wait for the byte budget of a frame.
    pending_uploads: VecDeque<(AttachmentTile, AttachmentData)>,
    /// Tiles that became ready since the last report.
    ready_tiles: Vec<(TileCoordinate, u32)>,
    /// Ready tiles that were evicted since the last report.
    dropped_tiles: Vec<(TileCoordinate, u32)>,
    /// The generation of the tile that was given a slot last.
    generation: u32,
    atlas_size: u32,
    lod_count: u32,
}

impl View for TileAtlas {
    type V = AtlasView;

    closed spec fn view(&self) -> AtlasView {
        AtlasView {
            size: self.atlas_size,
            lod_count: self.lod_count,
            attachments: attachment_map(self.attachments),
            existing: tile_set(self.existing_tiles),
            tiles: tile_map(self.tile_states),
            unused: self.unused_indices@,
            generation: self.generation,
            to_load: self.load_order().to_multiset(),
            pending: self.pending_uploads@,
            uploading: self.uploading_tiles@,
            ready: self.ready_tiles@,
            dropped: self.dropped_tiles@,
        }
    }
}

impl TileAtlas {
    /// The loads that were issued and not yet started, in the order in which they were issued. The
    /// order among the attachments of one tile is arbitrary.
    pub closed spec fn load_order(&self) -> Seq<AttachmentTileView> {
        load_views(self.to_load@)
    }

    /// An atlas of the given terrain, without tiles.
    pub fn new(config: &TerrainConfig, settings: &TerrainSettings) -> (atlas: Self)
        requires
            config.wf(),
        ensures
            atlas@.wf(),
            atlas@.is_new(*config, settings.atlas_size),
            atlas@.size == settings.atlas_size,
            atlas@.existing == config.tiles@.to_set(),
            atlas@.unused == Seq::new(settings.atlas_size as nat, |i: int| i as u32),
            forall|label: LabelView| #[trigger]
                atlas@.attachments.contains_key(label) <==> exists|i: int|
                    0 <= i < config.attachments@.len() && #[trigger] config.label(i) == label,
            forall|i: int|
                0 <= i < config.attachments@.len() ==> atlas@.attachments[#[trigger] config.label(
                    i,
                )].configured(config.attachments@[i].1, config.path@),
            atlas@.tiles.dom() == Set::<TileCoordinate>::empty(),
            atlas.load_order() == Seq::<AttachmentTileView>::empty(),
            atlas@.to_load == Multiset::<AttachmentTileView>::empty(),
            atlas@.pending.len() == 0,
            atlas@.uploading.len() == 0,
            atlas@.ready.len() == 0,
            atlas@.dropped.len() == 0,
            atlas@.generation == 0,
            atlas@.lod_count == config.lod_count,
    {
        let mut attachments = new_attachment_map();
        let mut i: usize = 0;
        while i < config.attachments.len()
            invariant
                i <= config.attachments@.len(),
                config.wf(),
                forall|label: LabelView| #[trigger]
                    attachment_map(attachments).contains_key(label) <==> exists|j: int|
                        0 <= j < i && #[trigger] config.label(j) == label,
                forall|j: int|
                    0 <= j < i ==> attachment_map(attachments)[#[trigger] config.label(
                        j,
                    )].configured(config.attachments@[j].1, config.path@),
                attachment_map(attachments).dom().finite(),
            decreases config.attachments@.len() - i,
        {
            let ghost before = attachment_map(attachments);
            let (label, attachment) = &config.attachments[i];
            insert_attachment(
                &mut attachments,
                label.key(),
                Attachment::new(attachment, config.path.as_str()),
            );
            assert(config.label(i as int) == label@);
            assert forall|label: LabelView| #[trigger]
                attachment_map(attachments).contains_key(label) <==> exists|j: int|
                    0 <= j < i + 1 && #[trigger] config.label(j) == label by {
                if before.contains_key(label) {
                    let j = choose|j: int| 0 <= j < i && #[trigger] config.label(j) == label;
                    assert(config.label(j) == label);
                }
            }
            i += 1;
        }

        let mut unused_indices: VecDeque<u32> = VecDeque::new();
        let mut slot: u32 = 0;
        while slot < settings.atlas_size
            invariant
                slot <= settings.atlas_size,
                unused_indices@ == Seq::new(slot as nat, |i: int| i as u32),
            decreases settings.atlas_size - slot,
        {
            unused_indices.push_back(slot);
            slot += 1;
            assert(unused_indices@ =~= Seq::new(slot as nat, |i: int| i as u32));
        }

        let atlas = TileAtlas {
            attachments,
            tile_states: new_tile_map(),
            unused_indices,
            existing_tiles: collect_tile_set(&config.tiles),
            uploading_tiles: Vec::new(),
            to_load: Vec::new(),
            pending_uploads: VecDeque::new(),
            ready_tiles: Vec::new(),
            dropped_tiles: Vec::new(),
            generation: 0,
            atlas_size: settings.atlas_size,
            lod_count: config.lod_count,
        };
        proof {
            assert(atlas.load_order() =~= Seq::<AttachmentTileView>::empty());
            atlas.load_order().to_multiset_ensures();
            assert(atlas@.to_load =~= Multiset::<AttachmentTileView>::empty());
            reveal(AtlasView::wf);
            assert forall|slot: u32| slot < atlas@.size implies atlas@.unused.contains(slot) by {
                assert(atlas@.unused[slot as int] == slot);
            }
        }
        atlas
    }

    /// The finest loaded tile among the given one and those that cover it.
    pub fn get_best_tile(&self, tile_coordinate: TileCoordinate) -> (entry: TileTreeEntry)
        ensures
            entry == self@.best_tile(tile_coordinate),
    {
        if !set_has_tile(&self.existing_tiles, tile_coordinate) {
            return TileTreeEntry::default();
        }
        let mut best = tile_coordinate;
        loop
            invariant
                self@.existing.contains(tile_coordinate),
                self@.best_tile(tile_coordinate) == nearest_loaded(self@.resident(), best),
            decreases best.lod,
        {
            if best == TileCoordinate::invalid() {
                return TileTreeEntry::default();
            }
            if let Some(tile) = get_tile(&self.tile_states, best) {
                if matches!(tile.state, LoadingState::Loaded) {
                    return TileTreeEntry { atlas_index: tile.atlas_index, atlas_lod: best.lod };
                }
            }
            match best.parent() {
                Some(parent) => {
                    best = parent;
                },
                None => {
                    return TileTreeEntry::default();
                },
            }
        }
    }

    /// Whether a load was issued for the state that its tile has now.
    fn tile_generation_matches(&self, tile: &AttachmentTile) -> (matches: bool)
        ensures
            matches == self@.current(*tile),
    {
        match get_tile(&self.tile_states, tile.coordinate) {
            Some(state) => state.generation == tile.generation,
            None => false,
        }
    }

    /// Queues an attachment that has been loaded. A load that outlived the state of its tile is
    /// discarded.
    ///
    /// The tile does not become ready before the attachment is staged: else it could be sampled
    /// before its pixels arrive.
    pub fn tile_loaded(&mut self, tile: AttachmentTile, data: AttachmentData)
        requires
            old(self)@.wf(),
        ensures
            final(self)@ == old(self)@.receive(tile, data),
            final(self)@.wf(),
            final(self).load_order() == old(self).load_order(),
    {
        proof {
            receive_keeps_wf(self@, tile, data);
        }
        if !self.tile_generation_matches(&tile) {
            return ;
        }
        self.pending_uploads.push_back((tile, data));
    }

    /// Stages an attachment for upload; the last missing one makes its tile ready.
    fn stage_upload(&mut self, tile: AttachmentTile, data: AttachmentData)
        requires
            old(self)@.can_stage(tile),
        ensures
            final(self)@ == old(self)@.stage(tile, data),
            final(self).load_order() == old(self).load_order(),
    {
        let Some(mut state) = get_tile(&self.tile_states, tile.coordinate) else {
            return ;
        };
        if state.generation != tile.generation {
            return ;
        }
        let LoadingState::Loading(missing) = state.state else {
            return ;
        };
        let became_ready = missing == 1;
        state.state = if became_ready {
            LoadingState::Loaded
        } else {
            LoadingState::Loading(missing - 1)
        };
        insert_tile(&mut self.tile_states, tile.coordinate, state);
        let coordinate = tile.coordinate;
        self.uploading_tiles.push(
            AttachmentTileWithData { atlas_index: state.atlas_index, label: tile.label, data },
        );
        if became_ready {
            self.ready_tiles.push((coordinate, state.atlas_index));
        }
    }

    /// Whether an attachment is still missing, so that it can be staged.
    fn can_stage(&self, tile: &AttachmentTile) -> (can: bool)
        ensures
            can == self@.can_stage(*tile),
    {
        match get_tile(&self.tile_states, tile.coordinate) {
            Some(state) => state.generation != tile.generation || match state.state {
                LoadingState::Loading(missing) => missing > 0,
                LoadingState::Loaded => false,
            },
            None => true,
        }
    }

    /// Stages the attachments that wait longest, up to the byte budget of a frame, and tells whether
    /// all of them belong to tiles that still miss attachments. The first one that does not ends the
    /// staging.
    pub fn try_stage_uploads(&mut self) -> (staged: bool)
        requires
            old(self)@.wf(),
        ensures
            staged == old(self)@.can_stage_next(staged_count(old(self)@.pending)),
            staged ==> final(self)@ == old(self)@.stage_next(
                staged_count(old(self)@.pending),
            ),
            !staged ==> old(self)@.stage_stops(
                staged_count(old(self)@.pending),
                final(self)@,
            ),
            final(self)@.wf(),
            final(self).load_order() == old(self).load_order(),
    {
        let mut staged: usize = 0;
        let mut begun = false;
        let ghost start = self@;
        let ghost goal = staged_count(start.pending);
        loop
            invariant_except_break
                start.can_stage_next(goal) == self@.can_stage_next(
                    staged_next(begun, self@.pending, staged as nat),
                ),
                start.stage_next(goal) == self@.stage_next(
                    staged_next(begun, self@.pending, staged as nat),
                ),
                forall|stopped: AtlasView| #[trigger]
                    start.stage_stops(goal, stopped) == self@.stage_stops(
                        staged_next(begun, self@.pending, staged as nat),
                        stopped,
                    ),
            invariant
                start == old(self)@,
                goal == staged_count(start.pending),
                self@.wf(),
                self.load_order() == old(self).load_order(),
            ensures
                start.can_stage_next(goal),
                start.stage_next(goal) == self@,
            decreases self@.pending.len(),
        {
            let ghost before = *self;
            if self.pending_uploads.len() == 0 {
                break;
            }
            let bytes: usize = self.pending_uploads[0].1.bytes().len();
            assert(before@.pending[0] == before@.pending.first());
            if begun && (staged > UPLOAD_BUDGET_BYTES || bytes > UPLOAD_BUDGET_BYTES - staged) {
                break;
            }
            if !self.can_stage(&self.pending_uploads[0].0) {
                assert(start.stage_stops(goal, self@));
                return false;
            }
            proof {
                stage_keeps_wf(self@);
            }
            let Some((tile, data)) = self.pending_uploads.pop_front() else {
                break;
            };
            assert(before@.pending.first() == (tile, data));
            assert(self@.pending =~= before@.pending.drop_first());
            staged = if begun {
                staged + bytes
            } else {
                bytes
            };
            begun = true;
            assert(self@ == (AtlasView { pending: before@.pending.drop_first(), ..before@ }));
            self.stage_upload(tile, data);
            assert(self@ == before@.stage_first());
        }
        true
    }

    /// Stages the attachments that wait longest, up to the byte budget of a frame.
    ///
    /// Tiles become ready here, in the frame in which their data goes to the GPU.
    pub fn stage_uploads(&mut self)
        requires
            old(self)@.wf(),
            old(self)@.can_stage_next(staged_count(old(self)@.pending)),
        ensures
            final(self)@ == old(self)@.stage_next(staged_count(old(self)@.pending)),
            final(self)@.wf(),
            final(self).load_order() == old(self).load_order(),
    {
        self.try_stage_uploads();
    }

    /// The tile that occupies a slot.
    fn find_occupant(&self, slot: u32) -> (tile: Option<TileCoordinate>)
        requires
            self@.wf(),
        ensures
            tile == self@.occupant(slot),
    {
        let tiles = tiles_of_map(&self.tile_states);
        let mut i: usize = 0;
        while i < tiles.len()
            invariant
                i <= tiles@.len(),
                self@.wf(),
                tiles@.to_set() == self@.tiles.dom(),
                forall|j: int| 0 <= j < i ==> !self@.occupies(#[trigger] tiles@[j], slot),
            decreases tiles@.len() - i,
        {
            let tile = tiles[i];
            assert(tiles@.to_set().contains(tile));
            if let Some(state) = get_tile(&self.tile_states, tile) {
                if state.atlas_index == slot {
                    proof {
                        occupant_is_unique(self@, tile, slot);
                    }
                    return Some(tile);
                }
            }
            i += 1;
        }
        proof {
            assert forall|tile: TileCoordinate| !self@.occupies(tile, slot) by {
                if self@.tiles.contains_key(tile) {
                    assert(tiles@.to_set().contains(tile));
                    let j = choose|j: int| 0 <= j < tiles@.len() && tiles@[j] == tile;
                    assert(!self@.occupies(tiles@[j], slot));
                }
            }
        }
        None
    }

    /// Discards the attachments that wait for a tile.
    fn discard_pending(&mut self, tile: TileCoordinate)
        ensures
            final(self)@ == (AtlasView {
                pending: old(self)@.pending.filter(
                    |entry: (AttachmentTile, AttachmentData)| entry.0.coordinate != tile,
                ),
                ..old(self)@
            }),
            final(self).load_order() == old(self).load_order(),
    {
        let ghost before = self@.pending;
        let ghost keep = |entry: (AttachmentTile, AttachmentData)| entry.0.coordinate != tile;
        let count: usize = self.pending_uploads.len();
        let mut i: usize = 0;
        assert(before.take(0).filter(keep) =~= Seq::<(AttachmentTile, AttachmentData)>::empty()) by {
            reveal(Seq::filter);
        }
        assert(before.skip(0) =~= before);
        assert(self@.pending =~= before.skip(0) + before.take(0).filter(keep));
        while i < count
            invariant
                i <= count,
                count == before.len(),
                keep == (|entry: (AttachmentTile, AttachmentData)| entry.0.coordinate != tile),
                self.load_order() == old(self).load_order(),
                self@ == (AtlasView {
                    pending: before.skip(i as int) + before.take(i as int).filter(keep),
                    ..old(self)@
                }),
            decreases count - i,
        {
            let ghost kept = before.take(i as int).filter(keep);
            let ghost whole = self.pending_uploads@;
            assert(whole.first() == before[i as int]);
            assert(whole.drop_first() =~= before.skip(i + 1) + kept);
            assert(before.take(i + 1).drop_last() =~= before.take(i as int));
            assert(before.take(i + 1).filter(keep) == if keep(before[i as int]) {
                kept.push(before[i as int])
            } else {
                kept
            }) by {
                reveal(Seq::filter);
            }
            if let Some((load, data)) = self.pending_uploads.pop_front() {
                if load.coordinate != tile {
                    self.pending_uploads.push_back((load, data));
                    assert(self.pending_uploads@ =~= before.skip(i + 1) + kept.push(
                        before[i as int],
                    ));
                }
            }
            i += 1;
        }
        assert(before.skip(count as int) + before.take(count as int).filter(keep) =~= before.filter(
            keep,
        )) by {
            assert(before.take(count as int) =~= before);
        }
    }

    /// Takes a slot out of the unused ones.
    fn reuse_slot(&mut self, slot: u32)
        ensures
            final(self)@ == (AtlasView {
                unused: old(self)@.unused.filter(|other: u32| other != slot),
                ..old(self)@
            }),
            final(self).load_order() == old(self).load_order(),
    {
        let ghost before = self@.unused;
        let ghost keep = |other: u32| other != slot;
        let count: usize = self.unused_indices.len();
        let mut i: usize = 0;
        assert(before.take(0).filter(keep) =~= Seq::<u32>::empty()) by {
            reveal(Seq::filter);
        }
        assert(before.skip(0) =~= before);
        assert(self@.unused =~= before.skip(0) + before.take(0).filter(keep));
        while i < count
            invariant
                i <= count,
                count == before.len(),
                keep == (|other: u32| other != slot),
                self.load_order() == old(self).load_order(),
                self@ == (AtlasView {
                    unused: before.skip(i as int) + before.take(i as int).filter(keep),
                    ..old(self)@
                }),
            decreases count - i,
        {
            let ghost kept = before.take(i as int).filter(keep);
            let ghost whole = self.unused_indices@;
            assert(whole.first() == before[i as int]);
            assert(whole.drop_first() =~= before.skip(i + 1) + kept);
            assert(before.take(i + 1).drop_last() =~= before.take(i as int));
            assert(before.take(i + 1).filter(keep) == if keep(before[i as int]) {
                kept.push(before[i as int])
            } else {
                kept
            }) by {
                reveal(Seq::filter);
            }
            if let Some(other) = self.unused_indices.pop_front() {
                if other != slot {
                    self.unused_indices.push_back(other);
                    assert(self.unused_indices@ =~= before.skip(i + 1) + kept.push(
                        before[i as int],
                    ));
                }
            }
            i += 1;
        }
        assert(before.skip(count as int) + before.take(count as int).filter(keep) =~= before.filter(
            keep,
        )) by {
            assert(before.take(count as int) =~= before);
        }
    }

    /// Takes a slot away from the tile that occupies it.
    fn evict(&mut self, slot: u32)
        requires
            old(self)@.wf(),
        ensures
            final(self)@ == old(self)@.evict(slot),
            final(self).load_order() == old(self).load_order(),
    {
        if let Some(tile) = self.find_occupant(slot) {
            if let Some(state) = get_tile(&self.tile_states, tile) {
                if matches!(state.state, LoadingState::Loaded) {
                    self.dropped_tiles.push((tile, slot));
                }
            }
            self.discard_pending(tile);
            remove_tile(&mut self.tile_states, tile);
        }
    }

    /// Issues the loads of all attachments of a tile.
    fn issue_loads(&mut self, tile: TileCoordinate)
        requires
            old(self)@.attachments.dom().finite(),
        ensures
            final(self)@ == (AtlasView {
                to_load: old(self)@.to_load.add(
                    Multiset::from_set(old(self)@.loads_of(tile, old(self)@.generation)),
                ),
                ..old(self)@
            }),
            adds_loads(
                old(self).load_order(),
                final(self).load_order(),
                Seq::new(
                    old(self)@.attachments.dom().len(),
                    |i: int| (tile, old(self)@.generation),
                ),
            ),
    {
        let keys = keys_of_attachments(&self.attachments);
        let ghost labels = key_labels(keys@);
        let ghost generation = self.generation;
        let ghost issued = labels.map_values(
            |label: LabelView| AttachmentTileView { coordinate: tile, label, generation },
        );
        let ghost before = self.load_order();
        assert(before + issued.take(0) =~= before);
        let mut i: usize = 0;
        while i < keys.len()
            invariant
                i <= keys@.len(),
                labels == key_labels(keys@),
                generation == self.generation,
                issued == labels.map_values(
                    |label: LabelView| AttachmentTileView { coordinate: tile, label, generation },
                ),
                self.load_order() == before + issued.take(i as int),
                before == old(self).load_order(),
                self@ == (AtlasView { to_load: self.load_order().to_multiset(), ..old(self)@ }),
            decreases keys@.len() - i,
        {
            let ghost loads = self.to_load@;
            self.to_load.push(
                AttachmentTile {
                    coordinate: tile,
                    label: AttachmentLabel::from_key(&keys[i]),
                    generation: self.generation,
                },
            );
            assert(self.load_order() =~= load_views(loads).push(issued[i as int]));
            assert(before + issued.take(i + 1) =~= (before + issued.take(i as int)).push(
                issued[i as int],
            ));
            i += 1;
        }
        proof {
            assert(issued.take(i as int) =~= issued);
            labels.unique_seq_to_set();
            assert(loaded_for(self.load_order()) =~= loaded_for(before) + Seq::new(
                old(self)@.attachments.dom().len(),
                |i: int| (tile, old(self)@.generation),
            ));
            vstd::seq_lib::lemma_multiset_commutative(before, issued);
            let wanted = old(self)@.loads_of(tile, generation);
            assert(issued.no_duplicates()) by {
                assert forall|a: int, b: int|
                    0 <= a < issued.len() && 0 <= b < issued.len() && a != b implies issued[a]
                    != issued[b] by {
                    assert(labels[a] != labels[b]);
                }
            }
            issued.lemma_multiset_has_no_duplicates();
            issued.to_multiset_ensures();
            assert forall|load: AttachmentTileView| issued.contains(load) <==> wanted.contains(
                load,
            ) by {
                if issued.contains(load) {
                    let a = choose|a: int| 0 <= a < issued.len() && issued[a] == load;
                    assert(labels.to_set().contains(labels[a]));
                }
                if wanted.contains(load) {
                    assert(labels.to_set().contains(load.label));
                    let a = choose|a: int| 0 <= a < labels.len() && labels[a] == load.label;
                    assert(issued[a] == load);
                }
            }
            assert(wanted.finite()) by {
                assert(wanted =~= issued.to_set());
            }
            assert(issued.to_multiset() =~= Multiset::from_set(wanted)) by {
                let ones = Map::new(
                    |load: AttachmentTileView| wanted.contains(load),
                    |load: AttachmentTileView| 1nat,
                );
                assert(ones.dom() =~= wanted);
                assert(Multiset::from_set(wanted) == Multiset::from_map(ones));
                assert forall|load: AttachmentTileView| issued.to_multiset().count(load)
                    == Multiset::from_set(wanted).count(load) by {
                    if issued.contains(load) {
                        assert(issued.to_multiset().contains(load));
                    }
                }
            }
        }
    }

    /// One more tile tree uses a tile. A tile that is not present gets the slot that was released
    /// first.
    pub fn request_tile(&mut self, tile_coordinate: TileCoordinate)
        requires
            old(self)@.wf(),
            old(self)@.can_request(tile_coordinate),
        ensures
            final(self)@ == old(self)@.request(tile_coordinate),
            final(self)@.wf(),
            adds_loads(
                old(self).load_order(),
                final(self).load_order(),
                old(self)@.issued_by(tile_coordinate),
            ),
    {
        proof {
            request_keeps_wf(self@, tile_coordinate);
            assert(loaded_for(self.load_order()) + Seq::<(TileCoordinate, u32)>::empty()
                =~= loaded_for(self.load_order()));
        }
        if !set_has_tile(&self.existing_tiles, tile_coordinate) {
            return ;
        }
        match get_tile(&self.tile_states, tile_coordinate) {
            Some(mut tile) => {
                if tile.requests == 0 {
                    self.reuse_slot(tile.atlas_index);
                }
                tile.requests += 1;
                insert_tile(&mut self.tile_states, tile_coordinate, tile);
            },
            None => {
                let ghost before = self@;
                let slot: u32 = self.unused_indices[0];
                self.evict(slot);
                self.unused_indices.pop_front();
                assert(self@.unused =~= before.unused.drop_first());
                let ghost freed = self@;
                assert(freed == (AtlasView {
                    unused: before.unused.drop_first(),
                    ..before.evict(slot)
                }));
                self.generation = self.generation.wrapping_add(1);
                let count: u32 = self.attachment_count();
                insert_tile(
                    &mut self.tile_states,
                    tile_coordinate,
                    TileState {
                        requests: 1,
                        state: LoadingState::Loading(count),
                        atlas_index: slot,
                        generation: self.generation,
                    },
                );
                assert(self@.loads_of(tile_coordinate, self@.generation) =~= freed.loads_of(
                    tile_coordinate,
                    self@.generation,
                ));
                proof {
                    reveal(AtlasView::wf);
                }
                self.issue_loads(tile_coordinate);
                assert(self@.tiles =~= freed.occupy(tile_coordinate, slot).tiles);
                assert(self@ == freed.occupy(tile_coordinate, slot));
            },
        }
    }

    /// The number of attachments of every tile.
    fn attachment_count(&self) -> (count: u32)
        ensures
            count == self@.attachments.dom().len() as u32,
    {
        let keys = keys_of_attachments(&self.attachments);
        proof {
            key_labels(keys@).unique_seq_to_set();
        }
        keys.len() as u32
    }

    /// One tile tree less uses a tile. The slot of a tile without users becomes unused; the tile
    /// stays cached there.
    pub fn release_tile(&mut self, tile_coordinate: TileCoordinate)
        requires
            old(self)@.wf(),
            old(self)@.can_release(tile_coordinate),
        ensures
            final(self)@ == old(self)@.release(tile_coordinate),
            final(self)@.wf(),
            final(self).load_order() == old(self).load_order(),
    {
        proof {
            release_keeps_wf(self@, tile_coordinate);
        }
        if !set_has_tile(&self.existing_tiles, tile_coordinate) {
            return ;
        }
        if let Some(mut tile) = get_tile(&self.tile_states, tile_coordinate) {
            tile.requests -= 1;
            insert_tile(&mut self.tile_states, tile_coordinate, tile);
            if tile.requests == 0 {
                self.unused_indices.push_back(tile.atlas_index);
            }
        }
    }

    /// Whether a tile tree uses the tile, so that it can be released.
    fn can_release(&self, tile_coordinate: TileCoordinate) -> (can: bool)
        ensures
            can == self@.can_release(tile_coordinate),
    {
        !set_has_tile(&self.existing_tiles, tile_coordinate) || match get_tile(
            &self.tile_states,
            tile_coordinate,
        ) {
            Some(tile) => tile.requests > 0,
            None => false,
        }
    }

    /// Whether a request of the tile can be served.
    fn can_request(&self, tile_coordinate: TileCoordinate) -> (can: bool)
        ensures
            can == self@.can_request(tile_coordinate),
    {
        !set_has_tile(&self.existing_tiles, tile_coordinate) || match get_tile(
            &self.tile_states,
            tile_coordinate,
        ) {
            Some(tile) => tile.requests < u32::MAX,
            None => self.unused_indices.len() > 0,
        }
    }

    /// Releases tiles up to the first that no tile tree uses.
    fn release_tiles(&mut self, tiles: &Vec<TileCoordinate>) -> (served: bool)
        requires
            old(self)@.wf(),
        ensures
            served == old(self)@.can_release_all(tiles@),
            final(self)@ == old(self)@.release_all(old(self)@.releasable(tiles@)),
            final(self)@.wf(),
            final(self).load_order() == old(self).load_order(),
    {
        let ghost start = self@;
        let mut i: usize = 0;
        assert(tiles@.take(0) =~= Seq::<TileCoordinate>::empty());
        while i < tiles.len()
            invariant
                i <= tiles@.len(),
                start == old(self)@,
                self@.wf(),
                self@ == start.release_all(tiles@.take(i as int)),
                start.can_release_all(tiles@.take(i as int)),
                self.load_order() == old(self).load_order(),
            decreases tiles@.len() - i,
        {
            assert(tiles@.take(i + 1).drop_last() =~= tiles@.take(i as int));
            if !self.can_release(tiles[i]) {
                proof {
                    released_before(start, tiles@, i as int);
                }
                return false;
            }
            self.release_tile(tiles[i]);
            i += 1;
        }
        assert(tiles@.take(i as int) =~= tiles@);
        true
    }

    /// Requests tiles up to the first that cannot be served.
    fn request_tiles(&mut self, tiles: &Vec<TileCoordinate>) -> (served: bool)
        requires
            old(self)@.wf(),
        ensures
            served == old(self)@.can_request_all(tiles@),
            final(self)@ == old(self)@.request_all(old(self)@.requestable(tiles@)),
            final(self)@.wf(),
            adds_loads(
                old(self).load_order(),
                final(self).load_order(),
                old(self)@.issued_by_all(old(self)@.requestable(tiles@)),
            ),
    {
        let ghost start = self@;
        let mut i: usize = 0;
        assert(tiles@.take(0) =~= Seq::<TileCoordinate>::empty());
        assert(loaded_for(self.load_order()) + Seq::<(TileCoordinate, u32)>::empty()
            =~= loaded_for(self.load_order()));
        while i < tiles.len()
            invariant
                i <= tiles@.len(),
                start == old(self)@,
                self@.wf(),
                self@ == start.request_all(tiles@.take(i as int)),
                start.can_request_all(tiles@.take(i as int)),
                adds_loads(
                    old(self).load_order(),
                    self.load_order(),
                    start.issued_by_all(tiles@.take(i as int)),
                ),
            decreases tiles@.len() - i,
        {
            assert(tiles@.take(i + 1).drop_last() =~= tiles@.take(i as int));
            if !self.can_request(tiles[i]) {
                proof {
                    requested_before(start, tiles@, i as int);
                }
                return false;
            }
            self.request_tile(tiles[i]);
            assert(tiles@.take(i + 1).last() == tiles@[i as int]);
            assert(loaded_for(self.load_order()) =~= loaded_for(old(self).load_order())
                + start.issued_by_all(tiles@.take(i + 1)));
            i += 1;
        }
        assert(tiles@.take(i as int) =~= tiles@);
        true
    }

    /// Releases and requests the tiles that a tile tree reports, and tells whether all of them could
    /// be served: releasing a tile that no tile tree uses fails, and so does requesting a tile when
    /// the atlas is out of slots. The first tile that cannot be served ends the update.
    pub fn try_update(&mut self, tile_tree: &mut TileTree) -> (served: bool)
        requires
            old(self)@.wf(),
        ensures
            served == old(self)@.can_update(old(tile_tree)@.released, old(tile_tree)@.requested),
            final(self)@ == old(self)@.update(
                old(self)@.releasable(old(tile_tree)@.released),
                old(self)@.update_requests(old(tile_tree)@.released, old(tile_tree)@.requested),
            ),
            served ==> final(self)@ == old(self)@.update(
                old(tile_tree)@.released,
                old(tile_tree)@.requested,
            ),
            final(self)@.wf(),
            adds_loads(
                old(self).load_order(),
                final(self).load_order(),
                old(self)@.release_all(
                    old(self)@.releasable(old(tile_tree)@.released),
                ).issued_by_all(
                    old(self)@.update_requests(
                        old(tile_tree)@.released,
                        old(tile_tree)@.requested,
                    ),
                ),
            ),
            final(tile_tree)@ == old(tile_tree)@.reported(),
            final(tile_tree).spec_config() == old(tile_tree).spec_config(),
            final(tile_tree).spec_refinement_count() == old(tile_tree).spec_refinement_count(),
    {
        let released = tile_tree.drain_released();
        let requested = tile_tree.drain_requested();
        if !self.release_tiles(&released) {
            assert(loaded_for(self.load_order()) + Seq::<(TileCoordinate, u32)>::empty()
                =~= loaded_for(self.load_order()));
            return false;
        }
        self.request_tiles(&requested)
    }

    /// Releases and requests the tiles that a tile tree reports. Afterwards the tile tree has nothing
    /// to report.
    pub fn update(&mut self, tile_tree: &mut TileTree)
        requires
            old(self)@.wf(),
            old(self)@.can_update(old(tile_tree)@.released, old(tile_tree)@.requested),
        ensures
            final(self)@ == old(self)@.update(
                old(tile_tree)@.released,
                old(tile_tree)@.requested,
            ),
            final(self)@.wf(),
            adds_loads(
                old(self).load_order(),
                final(self).load_order(),
                old(self)@.release_all(old(tile_tree)@.released).issued_by_all(
                    old(tile_tree)@.requested,
                ),
            ),
            final(tile_tree)@ == old(tile_tree)@.reported(),
            final(tile_tree).spec_config() == old(tile_tree).spec_config(),
            final(tile_tree).spec_refinement_count() == old(tile_tree).spec_refinement_count(),
    {
        self.try_update(tile_tree);
    }

    /// Hands out the loads that were issued, to be started.
    pub fn take_loads(&mut self) -> (loads: Vec<AttachmentTile>)
        ensures
            load_views(loads@) == old(self).load_order(),
            final(self).load_order() == Seq::<AttachmentTileView>::empty(),
            final(self)@ == old(self)@.started(),
            final(self)@ == (AtlasView { to_load: Multiset::empty(), ..old(self)@ }),
            old(self)@.wf() ==> final(self)@.wf(),
    {
        let mut loads: Vec<AttachmentTile> = Vec::new();
        std::mem::swap(&mut loads, &mut self.to_load);
        proof {
            assert(self.load_order() =~= Seq::<AttachmentTileView>::empty());
            self.load_order().to_multiset_ensures();
            assert(self@.to_load =~= Multiset::<AttachmentTileView>::empty());
            if old(self)@.wf() {
                same_slots_keep_wf(old(self)@, self@);
            }
        }
        loads
    }

    /// Exchanges the attachments that are staged for upload for others.
    pub fn swap_uploading_tiles(&mut self, tiles: &mut Vec<AttachmentTileWithData>)
        ensures
            final(self)@ == old(self)@.staging(old(tiles)@),
            final(self)@ == (AtlasView { uploading: old(tiles)@, ..old(self)@ }),
            final(tiles)@ == old(self)@.uploading,
            final(self).load_order() == old(self).load_order(),
            old(self)@.wf() ==> final(self)@.wf(),
    {
        std::mem::swap(&mut self.uploading_tiles, tiles);
        proof {
            if old(self)@.wf() {
                same_slots_keep_wf(old(self)@, self@);
            }
        }
    }

    /// The attachment with the given label.
    pub fn attachment(&self, label: &AttachmentLabel) -> (attachment: Option<&Attachment>)
        ensures
            attachment is Some <==> self@.attachments.contains_key(label@),
            attachment is Some ==> *attachment->Some_0 == self@.attachments[label@],
    {
        get_attachment(&self.attachments, &label.key())
    }

    /// The number of levels of detail.
    pub fn lod_count(&self) -> (count: u32)
        ensures
            count == self@.lod_count,
    {
        self.lod_count
    }

    /// Reports the tiles that became ready and those that were dropped since the last report.
    pub fn emit_tile_events(&mut self, terrain: u64) -> (events: (
        Vec<TerrainTileReady>,
        Vec<TerrainTileDropped>,
    ))
        ensures
            final(self)@ == old(self)@.announced(),
            events.0@ == ready_messages(terrain, old(self)@.ready),
            events.1@ == dropped_messages(terrain, old(self)@.dropped),
            events.0@ == old(self)@.ready.map_values(
                |tile: (TileCoordinate, u32)|
                    TerrainTileReady { terrain, coordinate: tile.0, atlas_index: tile.1 },
            ),
            events.1@ == old(self)@.dropped.map_values(
                |tile: (TileCoordinate, u32)|
                    TerrainTileDropped { terrain, coordinate: tile.0, atlas_index: tile.1 },
            ),
            final(self)@ == (AtlasView {
                ready: Seq::<(TileCoordinate, u32)>::empty(),
                dropped: Seq::<(TileCoordinate, u32)>::empty(),
                ..old(self)@
            }),
            old(self)@.wf() ==> final(self)@.wf(),
            final(self).load_order() == old(self).load_order(),
    {
        let mut ready: Vec<TerrainTileReady> = Vec::new();
        let mut i: usize = 0;
        while i < self.ready_tiles.len()
            invariant
                i <= self.ready_tiles@.len(),
                ready@.len() == i,
                forall|j: int|
                    0 <= j < i ==> #[trigger] ready@[j] == (TerrainTileReady {
                        terrain,
                        coordinate: self.ready_tiles@[j].0,
                        atlas_index: self.ready_tiles@[j].1,
                    }),
            decreases self.ready_tiles@.len() - i,
        {
            let (coordinate, atlas_index) = self.ready_tiles[i];
            ready.push(TerrainTileReady { terrain, coordinate, atlas_index });
            i += 1;
        }
        let mut dropped: Vec<TerrainTileDropped> = Vec::new();
        let mut i: usize = 0;
        while i < self.dropped_tiles.len()
            invariant
                i <= self.dropped_tiles@.len(),
                dropped@.len() == i,
                forall|j: int|
                    0 <= j < i ==> #[trigger] dropped@[j] == (TerrainTileDropped {
                        terrain,
                        coordinate: self.dropped_tiles@[j].0,
                        atlas_index: self.dropped_tiles@[j].1,
                    }),
            decreases self.dropped_tiles@.len() - i,
        {
            let (coordinate, atlas_index) = self.dropped_tiles[i];
            dropped.push(TerrainTileDropped { terrain, coordinate, atlas_index });
            i += 1;
        }
        self.ready_tiles.clear();
        self.dropped_tiles.clear();
        proof {
            if old(self)@.wf() {
                same_slots_keep_wf(old(self)@, self@);
            }
        }
        (ready, dropped)
    }
}

/// Whether an atlas is well formed depends on its slots and waiting attachments alone.
proof fn same_slots_keep_wf(before: AtlasView, after: AtlasView)
    requires
        before.wf(),
        after.size == before.size,
        after.attachments == before.attachments,
        after.existing == before.existing,
        after.tiles == before.tiles,
        after.unused == before.unused,
        after.pending == before.pending,
    ensures
        after.wf(),
{
    reveal(AtlasView::wf);
    assert forall|slot: u32| slot < after.size implies after.unused.contains(slot)
        || exists|other: TileCoordinate| #[trigger] after.occupies(other, slot) by {
        if !before.unused.contains(slot) {
            let other = choose|other: TileCoordinate| #[trigger] before.occupies(other, slot);
            assert(after.occupies(other, slot));
        }
    }
    assert forall|i: int| 0 <= i < after.pending.len() implies after.current(
        (#[trigger] after.pending[i]).0,
    ) by {
        assert(before.current(before.pending[i].0));
    }
}

} // verus!
