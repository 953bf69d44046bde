//! What becomes of the slots of an atlas: who gets them, who loses them, and what is written to them.

use vstd::prelude::*;
use vstd::multiset::Multiset;
use crate::attachment::{
    AttachmentData, AttachmentTile, AttachmentTileView, AttachmentTileWithData,
};
use crate::coordinate::TileCoordinate;
use crate::loading::{missing, waiting_for};
use crate::tile_atlas::{
    adds_loads, dropped_messages, evict_facts, filter_keeps_all, load_views, loaded_for,
    ready_messages, stage_keeps_wf, AtlasView, LoadingState, TerrainConfig,
};
use crate::tile_tree::TreeView;

verus! {

/// Filters that agree on all items of a sequence keep the same items.
proof fn same_filter<T>(items: Seq<T>, a: spec_fn(T) -> bool, b: spec_fn(T) -> bool)
    requires
        forall|i: int| 0 <= i < items.len() ==> a(#[trigger] items[i]) == b(items[i]),
    ensures
        items.filter(a) == items.filter(b),
    decreases items.len(),
{
    reveal(Seq::filter);
    if items.len() > 0 {
        let front = items.drop_last();
        assert forall|i: int| 0 <= i < front.len() implies a(#[trigger] front[i]) == b(front[i]) by {
            assert(items[i] == front[i]);
        }
        same_filter(front, a, b);
        assert(items[items.len() - 1] == items.last());
    }
}

/// Requesting a tile that occupies a slot adds one user to it and takes its slot out of the unused
/// ones. Its state and its slot stay, and nothing else changes.
pub proof fn requests_use_present_tiles(atlas: AtlasView, tile: TileCoordinate)
    requires
        atlas.wf(),
        atlas.can_request(tile),
        atlas.existing.contains(tile),
        atlas.tiles.contains_key(tile),
    ensures
        ({
            let after = atlas.request(tile);
            let slot = atlas.tiles[tile].atlas_index;
            &&& after.tiles.dom() == atlas.tiles.dom()
            &&& after.tiles[tile].requests == atlas.tiles[tile].requests + 1
            &&& after.tiles[tile].state == atlas.tiles[tile].state
            &&& after.tiles[tile].atlas_index == slot
            &&& after.tiles[tile].generation == atlas.tiles[tile].generation
            &&& forall|other: TileCoordinate|
                other != tile && #[trigger] atlas.tiles.contains_key(other) ==> after.tiles[other]
                    == atlas.tiles[other]
            &&& after.unused == atlas.unused.filter(|free: u32| free != slot)
            &&& after.generation == atlas.generation
            &&& after.to_load == atlas.to_load
            &&& after.pending == atlas.pending
            &&& after.uploading == atlas.uploading
            &&& after.ready == atlas.ready
            &&& after.dropped == atlas.dropped
            &&& after.size == atlas.size && after.lod_count == atlas.lod_count
            &&& after.attachments == atlas.attachments && after.existing == atlas.existing
        }),
{
    reveal(AtlasView::wf);
    let after = atlas.request(tile);
    let slot = atlas.tiles[tile].atlas_index;
    assert(after.tiles.dom() =~= atlas.tiles.dom());
    if atlas.tiles[tile].requests > 0 {
        assert forall|i: int| 0 <= i < atlas.unused.len() implies #[trigger] atlas.unused[i]
            != slot by {
            assert(atlas.unused.contains(atlas.unused[i]));
        }
        filter_keeps_all(atlas.unused, |free: u32| free != slot);
    }
}

/// Requesting a tile that occupies no slot gives it the one that has been unused longest. The tile that
/// was cached there is gone, with all that waits for it, and is reported dropped if it was ready; the
/// other tiles stay. One load is issued for each attachment, and all of them are missing.
pub proof fn requests_take_the_longest_unused_slot(atlas: AtlasView, tile: TileCoordinate)
    requires
        atlas.wf(),
        atlas.can_request(tile),
        atlas.existing.contains(tile),
        !atlas.tiles.contains_key(tile),
    ensures
        ({
            let after = atlas.request(tile);
            let slot = atlas.unused[0];
            &&& after.tiles.contains_key(tile)
            &&& after.tiles[tile].atlas_index == slot
            &&& after.tiles[tile].requests == 1
            &&& after.tiles[tile].state == LoadingState::Loading(
                atlas.attachments.dom().len() as u32,
            )
            &&& after.tiles[tile].generation == after.generation
            &&& after.generation == (if atlas.generation < u32::MAX {
                atlas.generation + 1
            } else {
                0
            })
            &&& after.unused == atlas.unused.skip(1)
            &&& forall|other: TileCoordinate|
                other != tile ==> (#[trigger] after.tiles.contains_key(other)
                    <==> atlas.tiles.contains_key(other) && atlas.tiles[other].atlas_index != slot)
            &&& forall|other: TileCoordinate|
                other != tile && #[trigger] after.tiles.contains_key(other) ==> after.tiles[other]
                    == atlas.tiles[other]
            &&& forall|gone: TileCoordinate|
                #[trigger] atlas.tiles.contains_key(gone) && atlas.tiles[gone].atlas_index == slot
                    && atlas.tiles[gone].state is Loaded ==> after.dropped == atlas.dropped.push(
                    (gone, slot),
                )
            &&& (forall|gone: TileCoordinate|
                #[trigger] atlas.tiles.contains_key(gone) && atlas.tiles[gone].atlas_index == slot
                    ==> atlas.tiles[gone].state is Loading) ==> after.dropped == atlas.dropped
            &&& after.pending == atlas.pending.filter(
                |entry: (AttachmentTile, AttachmentData)|
                    atlas.tiles[entry.0.coordinate].atlas_index != slot,
            )
            &&& forall|load: AttachmentTileView| #[trigger]
                after.to_load.count(load) == atlas.to_load.count(load) + (if load.coordinate == tile
                    && load.generation == after.generation && atlas.attachments.contains_key(
                    load.label,
                ) {
                    1int
                } else {
                    0int
                })
            &&& after.uploading == atlas.uploading
            &&& after.ready == atlas.ready
            &&& after.size == atlas.size && after.lod_count == atlas.lod_count
            &&& after.attachments == atlas.attachments && after.existing == atlas.existing
        }),
{
    reveal(AtlasView::wf);
    let after = atlas.request(tile);
    let slot = atlas.unused.first();
    assert(atlas.unused[0] == slot);
    evict_facts(atlas, slot);
    let evicted = atlas.evict(slot);
    assert(after.unused =~= atlas.unused.skip(1));
    let keep = |entry: (AttachmentTile, AttachmentData)|
        atlas.tiles[entry.0.coordinate].atlas_index != slot;
    assert forall|other: TileCoordinate| other != tile implies (
    #[trigger] after.tiles.contains_key(other) <==> atlas.tiles.contains_key(other)
        && atlas.tiles[other].atlas_index != slot) by {
        assert(after.tiles.contains_key(other) == evicted.tiles.contains_key(other));
    }
    assert forall|other: TileCoordinate|
        other != tile && #[trigger] after.tiles.contains_key(other) implies after.tiles[other]
        == atlas.tiles[other] by {
        assert(evicted.tiles.contains_key(other));
    }
    match atlas.occupant(slot) {
        None => {
            assert forall|gone: TileCoordinate| #[trigger]
                atlas.tiles.contains_key(gone) implies atlas.tiles[gone].atlas_index != slot by {
                assert(!atlas.occupies(gone, slot));
            }
            assert forall|i: int| 0 <= i < atlas.pending.len() implies keep(
                #[trigger] atlas.pending[i],
            ) by {
                assert(atlas.current(atlas.pending[i].0));
                assert(!atlas.occupies(atlas.pending[i].0.coordinate, slot));
            }
            filter_keeps_all(atlas.pending, keep);
        },
        Some(occupant) => {
            assert(atlas.occupies(occupant, slot));
            assert forall|gone: TileCoordinate| #[trigger]
                atlas.tiles.contains_key(gone) && atlas.tiles[gone].atlas_index == slot implies gone
                == occupant by {
                assert(atlas.tiles.contains_key(occupant));
            }
            let other = |entry: (AttachmentTile, AttachmentData)| entry.0.coordinate != occupant;
            assert forall|i: int| 0 <= i < atlas.pending.len() implies other(
                #[trigger] atlas.pending[i],
            ) == keep(atlas.pending[i]) by {
                assert(atlas.current(atlas.pending[i].0));
            }
            same_filter(atlas.pending, other, keep);
        },
    }
    crate::loading::issued_loads_are_counted(atlas, tile, after.generation);
    let freed = AtlasView { unused: atlas.unused.drop_first(), ..evicted };
    let issued = atlas.loads_of(tile, after.generation);
    assert(freed.loads_of(tile, after.generation) =~= issued);
    assert(after.to_load == atlas.to_load.add(Multiset::from_set(issued)));
}

/// Tiles that the terrain does not have are neither requested nor released.
pub proof fn missing_tiles_change_nothing(atlas: AtlasView, tile: TileCoordinate)
    requires
        !atlas.existing.contains(tile),
    ensures
        atlas.request(tile) == atlas,
        atlas.release(tile) == atlas,
{
}

/// Releasing a tile takes one user away from it. Without users its slot is the last one to be used
/// again; the tile stays there, and nothing else changes.
pub proof fn releases_free_the_slot(atlas: AtlasView, tile: TileCoordinate)
    requires
        atlas.wf(),
        atlas.can_release(tile),
        atlas.existing.contains(tile),
    ensures
        ({
            let after = atlas.release(tile);
            let slot = atlas.tiles[tile].atlas_index;
            &&& after.tiles.dom() == atlas.tiles.dom()
            &&& after.tiles[tile].requests == atlas.tiles[tile].requests - 1
            &&& after.tiles[tile].state == atlas.tiles[tile].state
            &&& after.tiles[tile].atlas_index == slot
            &&& after.tiles[tile].generation == atlas.tiles[tile].generation
            &&& forall|other: TileCoordinate|
                other != tile && #[trigger] atlas.tiles.contains_key(other) ==> after.tiles[other]
                    == atlas.tiles[other]
            &&& after.tiles[tile].requests == 0 ==> after.unused == atlas.unused.push(slot)
            &&& after.tiles[tile].requests > 0 ==> after.unused == atlas.unused
            &&& after.generation == atlas.generation
            &&& after.to_load == atlas.to_load
            &&& after.pending == atlas.pending
            &&& after.uploading == atlas.uploading
            &&& after.ready == atlas.ready
            &&& after.dropped == atlas.dropped
            &&& after.size == atlas.size && after.lod_count == atlas.lod_count
            &&& after.attachments == atlas.attachments && after.existing == atlas.existing
        }),
{
    let after = atlas.release(tile);
    assert(after.tiles.dom() =~= atlas.tiles.dom());
}

/// A finished load waits behind the others if its tile still has the generation for which it was
/// issued, and is forgotten otherwise. Nothing else changes, so no tile becomes ready by it.
pub proof fn finished_loads_wait(atlas: AtlasView, load: AttachmentTile, data: AttachmentData)
    ensures
        ({
            let after = atlas.receive(load, data);
            &&& atlas.tiles.contains_key(load.coordinate) && atlas.tiles[load.coordinate].generation
                == load.generation ==> after == (AtlasView {
                pending: atlas.pending.push((load, data)),
                ..atlas
            })
            &&& !atlas.tiles.contains_key(load.coordinate)
                || atlas.tiles[load.coordinate].generation != load.generation ==> after == atlas
        }),
{
}

/// Staging an attachment writes it, as it is, to the slot that its tile occupies. The tile then misses
/// one attachment less, and is ready, in that slot, exactly if that was the last one.
pub proof fn staging_writes_to_the_slot(atlas: AtlasView, load: AttachmentTile, data: AttachmentData)
    requires
        atlas.can_stage(load),
        atlas.tiles.contains_key(load.coordinate),
        atlas.tiles[load.coordinate].generation == load.generation,
    ensures
        ({
            let after = atlas.stage(load, data);
            let tile = load.coordinate;
            let upload = after.uploading.last();
            &&& after.uploading == atlas.uploading.push(upload)
            &&& atlas.occupies(tile, upload.atlas_index)
            &&& upload.atlas_index == atlas.tiles[tile].atlas_index
            &&& upload.label == load.label
            &&& upload.data == data
            &&& after.tiles.dom() == atlas.tiles.dom()
            &&& missing(after.tiles[tile].state) == missing(atlas.tiles[tile].state) - 1
            &&& after.tiles[tile].state is Loaded <==> atlas.tiles[tile].state
                == LoadingState::Loading(1)
            &&& after.tiles[tile].atlas_index == atlas.tiles[tile].atlas_index
            &&& after.tiles[tile].requests == atlas.tiles[tile].requests
            &&& after.tiles[tile].generation == atlas.tiles[tile].generation
            &&& forall|other: TileCoordinate|
                other != tile && #[trigger] atlas.tiles.contains_key(other) ==> after.tiles[other]
                    == atlas.tiles[other]
            &&& after.ready == if after.tiles[tile].state is Loaded {
                atlas.ready.push((tile, atlas.tiles[tile].atlas_index))
            } else {
                atlas.ready
            }
            &&& after.unused == atlas.unused
            &&& after.generation == atlas.generation
            &&& after.to_load == atlas.to_load
            &&& after.pending == atlas.pending
            &&& after.dropped == atlas.dropped
            &&& after.size == atlas.size && after.lod_count == atlas.lod_count
            &&& after.attachments == atlas.attachments && after.existing == atlas.existing
        }),
{
    let after = atlas.stage(load, data);
    assert(after.tiles.dom() =~= atlas.tiles.dom());
    assert(after.uploading.drop_last() =~= atlas.uploading);
}

/// A frame writes each attachment that it stages to the slot of its tile, in the order in which they
/// arrived, and every tile misses as many attachments less as were staged for it.
pub proof fn frames_write_to_the_slots(atlas: AtlasView, count: nat)
    requires
        atlas.wf(),
        atlas.can_stage_next(count),
    ensures
        ({
            let after = atlas.stage_next(count);
            &&& count <= atlas.pending.len()
            &&& after.pending == atlas.pending.skip(count as int)
            &&& after.uploading.len() == atlas.uploading.len() + count
            &&& after.uploading.take(atlas.uploading.len() as int) == atlas.uploading
            &&& forall|i: int|
                0 <= i < count ==> {
                    let upload = after.uploading[atlas.uploading.len() + i];
                    let (load, data) = #[trigger] atlas.pending[i];
                    &&& atlas.occupies(load.coordinate, upload.atlas_index)
                    &&& upload.label == load.label
                    &&& upload.data == data
                }
            &&& after.tiles.dom() == atlas.tiles.dom()
            &&& forall|tile: TileCoordinate| #[trigger]
                atlas.tiles.contains_key(tile) ==> after.tiles[tile].atlas_index
                    == atlas.tiles[tile].atlas_index && missing(atlas.tiles[tile].state) == missing(
                    after.tiles[tile].state,
                ) + waiting_for(atlas.pending.take(count as int), tile)
        }),
    decreases count,
{
    if count == 0 {
        assert(atlas.pending.skip(0) =~= atlas.pending);
        assert(atlas.pending.take(0) =~= Seq::<(AttachmentTile, AttachmentData)>::empty());
        assert(atlas.uploading.take(atlas.uploading.len() as int) =~= atlas.uploading);
    } else {
        let first = atlas.pending.first();
        assert(atlas.current(first.0)) by {
            reveal(AtlasView::wf);
            assert(atlas.current(atlas.pending[0].0));
        }
        let next = atlas.stage_first();
        let popped = AtlasView { pending: atlas.pending.drop_first(), ..atlas };
        staging_writes_to_the_slot(popped, first.0, first.1);
        stage_keeps_wf(atlas);
        frames_write_to_the_slots(next, (count - 1) as nat);
        let after = atlas.stage_next(count);
        assert(after == next.stage_next((count - 1) as nat));
        assert(next.pending =~= atlas.pending.drop_first());
        assert(next.pending.skip(count - 1) =~= atlas.pending.skip(count as int));
        let length = atlas.uploading.len() as int;
        assert(next.uploading.take(length) =~= atlas.uploading);
        assert(after.uploading.take(length) =~= after.uploading.take(length + 1).take(length));
        assert forall|i: int| 0 <= i < count implies ({
            let upload = after.uploading[length + i];
            let (load, data) = #[trigger] atlas.pending[i];
            &&& atlas.occupies(load.coordinate, upload.atlas_index)
            &&& upload.label == load.label
            &&& upload.data == data
        }) by {
            if i == 0 {
                assert(after.uploading[length] == after.uploading.take(length + 1)[length]);
                assert(next.uploading[length] == next.uploading.last());
            } else {
                assert(next.pending[i - 1] == atlas.pending[i]);
                let upload = after.uploading[length + 1 + (i - 1)];
                let tile = atlas.pending[i].0.coordinate;
                assert(next.occupies(tile, upload.atlas_index));
                assert(next.tiles.dom().contains(tile));
                assert(atlas.tiles.dom().contains(tile));
            }
        }
        let staged = atlas.pending.take(count as int);
        assert(staged.drop_first() =~= next.pending.take(count - 1));
        assert forall|tile: TileCoordinate| #[trigger] atlas.tiles.contains_key(
            tile,
        ) implies after.tiles[tile].atlas_index == atlas.tiles[tile].atlas_index && missing(
            atlas.tiles[tile].state,
        ) == missing(after.tiles[tile].state) + waiting_for(staged, tile) by {
            assert(next.tiles.dom().contains(tile));
            assert(next.tiles.contains_key(tile));
            crate::loading::waiting_after_first(staged, tile);
            assert(staged.first() == first);
        }
    }
}

/// What was written for the present stay of each tile.
pub type WriteLog = spec_fn(TileCoordinate) -> Seq<AttachmentTileWithData>;

/// Whether the writes add up: for every tile that has a slot, all attachments but the missing ones were
/// written, and all of them to that slot.
pub open spec fn writes_add_up(atlas: AtlasView, log: WriteLog) -> bool {
    forall|tile: TileCoordinate| #[trigger]
        atlas.tiles.contains_key(tile) ==> {
            &&& log(tile).len() + missing(atlas.tiles[tile].state) == atlas.attachments.dom().len()
            &&& forall|i: int|
                0 <= i < log(tile).len() ==> (#[trigger] log(tile)[i]).atlas_index
                    == atlas.tiles[tile].atlas_index
        }
}

/// Where the writes add up, all attachments of a ready tile were written to the slot in which it is
/// served.
pub proof fn ready_tiles_were_written(atlas: AtlasView, log: WriteLog, tile: TileCoordinate)
    requires
        writes_add_up(atlas, log),
        atlas.resident().contains_key(tile),
    ensures
        log(tile).len() == atlas.attachments.dom().len(),
        forall|i: int|
            0 <= i < log(tile).len() ==> (#[trigger] log(tile)[i]).atlas_index
                == atlas.resident()[tile],
{
    assert(atlas.tiles.contains_key(tile));
}

/// The writes still add up after a request: a tile that gets a slot has nothing written to it yet.
pub proof fn requests_keep_the_writes(atlas: AtlasView, log: WriteLog, tile: TileCoordinate)
    requires
        atlas.wf(),
        atlas.can_request(tile),
        atlas.attachments.dom().len() <= u32::MAX,
        writes_add_up(atlas, log),
    ensures
        writes_add_up(
            atlas.request(tile),
            |other: TileCoordinate|
                if other == tile && !atlas.tiles.contains_key(tile) {
                    Seq::empty()
                } else {
                    log(other)
                },
        ),
{
    if !atlas.existing.contains(tile) {
        missing_tiles_change_nothing(atlas, tile);
        assert(!atlas.tiles.contains_key(tile)) by {
            reveal(AtlasView::wf);
            if atlas.tiles.contains_key(tile) {
                assert(atlas.tiles.dom().contains(tile));
            }
        }
    } else if atlas.tiles.contains_key(tile) {
        requests_use_present_tiles(atlas, tile);
        let after = atlas.request(tile);
        assert forall|other: TileCoordinate| #[trigger]
            after.tiles.contains_key(other) implies atlas.tiles.contains_key(other) by {
            assert(after.tiles.dom().contains(other));
            assert(atlas.tiles.dom().contains(other));
        }
    } else {
        requests_take_the_longest_unused_slot(atlas, tile);
    }
}

/// The writes still add up after a release, and after a load was received.
pub proof fn releases_and_loads_keep_the_writes(
    atlas: AtlasView,
    log: WriteLog,
    tile: TileCoordinate,
    load: AttachmentTile,
    data: AttachmentData,
)
    requires
        atlas.wf(),
        atlas.can_release(tile),
        writes_add_up(atlas, log),
    ensures
        writes_add_up(atlas.release(tile), log),
        writes_add_up(atlas.receive(load, data), log),
{
    finished_loads_wait(atlas, load, data);
    if !atlas.existing.contains(tile) {
        missing_tiles_change_nothing(atlas, tile);
    } else {
        releases_free_the_slot(atlas, tile);
        let after = atlas.release(tile);
        assert forall|other: TileCoordinate| #[trigger]
            after.tiles.contains_key(other) implies atlas.tiles.contains_key(other) by {
            assert(after.tiles.dom().contains(other));
            assert(atlas.tiles.dom().contains(other));
        }
    }
}

/// The writes still add up after an attachment was staged, which is written for its tile.
pub proof fn staging_keeps_the_writes(
    atlas: AtlasView,
    log: WriteLog,
    load: AttachmentTile,
    data: AttachmentData,
)
    requires
        atlas.can_stage(load),
        atlas.tiles.contains_key(load.coordinate),
        atlas.tiles[load.coordinate].generation == load.generation,
        writes_add_up(atlas, log),
    ensures
        writes_add_up(
            atlas.stage(load, data),
            |other: TileCoordinate|
                if other == load.coordinate {
                    log(other).push(atlas.stage(load, data).uploading.last())
                } else {
                    log(other)
                },
        ),
{
    staging_writes_to_the_slot(atlas, load, data);
    let after = atlas.stage(load, data);
    assert forall|other: TileCoordinate| #[trigger]
        after.tiles.contains_key(other) implies atlas.tiles.contains_key(other) by {
        assert(after.tiles.dom().contains(other));
        assert(atlas.tiles.dom().contains(other));
    }
}

/// A request can be served exactly if the terrain does not have the tile, or its users can be counted,
/// or there is an unused slot for it. A tile can be released exactly if it has a user.
pub proof fn requests_need_a_slot_and_releases_a_user(atlas: AtlasView, tile: TileCoordinate)
    ensures
        !atlas.existing.contains(tile) ==> atlas.can_request(tile) && atlas.can_release(tile),
        atlas.existing.contains(tile) && atlas.tiles.contains_key(tile) ==> {
            &&& atlas.can_request(tile) <==> atlas.tiles[tile].requests < u32::MAX
            &&& atlas.can_release(tile) <==> atlas.tiles[tile].requests > 0
        },
        atlas.existing.contains(tile) && !atlas.tiles.contains_key(tile) ==> {
            &&& atlas.can_request(tile) <==> atlas.unused.len() > 0
            &&& !atlas.can_release(tile)
        },
{
}

/// An attachment can be staged exactly if its tile misses one, or it is not of the present stay of the
/// tile and does not count.
pub proof fn staging_needs_a_missing_attachment(atlas: AtlasView, load: AttachmentTile)
    ensures
        atlas.can_stage(load) <==> !atlas.tiles.contains_key(load.coordinate)
            || atlas.tiles[load.coordinate].generation != load.generation || missing(
            atlas.tiles[load.coordinate].state,
        ) > 0,
{
}

/// An update releases all tiles before it requests any, each list in its order.
pub proof fn updates_release_before_they_request(
    atlas: AtlasView,
    released: Seq<TileCoordinate>,
    requested: Seq<TileCoordinate>,
    tile: TileCoordinate,
)
    ensures
        atlas.update(Seq::empty(), Seq::empty()) == atlas,
        atlas.update(released.push(tile), Seq::empty()) == atlas.update(
            released,
            Seq::empty(),
        ).release(tile),
        atlas.update(released, requested.push(tile)) == atlas.update(released, requested).request(
            tile,
        ),
{
    assert(released.push(tile).drop_last() =~= released);
    assert(requested.push(tile).drop_last() =~= requested);
}

/// Tiles can be released or requested one after the other exactly if each of them can be after those
/// before it.
pub proof fn lists_are_served_one_by_one(
    atlas: AtlasView,
    tiles: Seq<TileCoordinate>,
    tile: TileCoordinate,
)
    ensures
        atlas.can_release_all(Seq::empty()),
        atlas.can_release_all(tiles.push(tile)) <==> atlas.can_release_all(tiles)
            && atlas.release_all(tiles).can_release(tile),
        atlas.can_request_all(Seq::empty()),
        atlas.can_request_all(tiles.push(tile)) <==> atlas.can_request_all(tiles)
            && atlas.request_all(tiles).can_request(tile),
{
    assert(tiles.push(tile).drop_last() =~= tiles);
}

/// An update that cannot be served gets as far as possible: it releases the tiles up to the first that
/// cannot be released.
pub proof fn releases_go_as_far_as_possible(atlas: AtlasView, tiles: Seq<TileCoordinate>)
    ensures
        ({
            let served = atlas.releasable(tiles);
            &&& served.is_prefix_of(tiles)
            &&& atlas.can_release_all(served)
            &&& served.len() < tiles.len() ==> !atlas.can_release_all(
                tiles.take(served.len() as int + 1),
            )
        }),
    decreases tiles.len(),
{
    if tiles.len() > 0 && !atlas.can_release_all(tiles) {
        let front = tiles.drop_last();
        releases_go_as_far_as_possible(atlas, front);
        let served = atlas.releasable(front);
        assert(served.is_prefix_of(tiles));
        if served.len() < front.len() {
            assert(front.take(served.len() as int + 1) =~= tiles.take(served.len() as int + 1));
        } else {
            assert(tiles.take(served.len() as int + 1) =~= tiles);
        }
    }
}

/// An update that cannot be served gets as far as possible: it requests the tiles up to the first that
/// cannot be requested.
pub proof fn requests_go_as_far_as_possible(atlas: AtlasView, tiles: Seq<TileCoordinate>)
    ensures
        ({
            let served = atlas.requestable(tiles);
            &&& served.is_prefix_of(tiles)
            &&& atlas.can_request_all(served)
            &&& served.len() < tiles.len() ==> !atlas.can_request_all(
                tiles.take(served.len() as int + 1),
            )
        }),
    decreases tiles.len(),
{
    if tiles.len() > 0 && !atlas.can_request_all(tiles) {
        let front = tiles.drop_last();
        requests_go_as_far_as_possible(atlas, front);
        let served = atlas.requestable(front);
        assert(served.is_prefix_of(tiles));
        if served.len() < front.len() {
            assert(front.take(served.len() as int + 1) =~= tiles.take(served.len() as int + 1));
        } else {
            assert(tiles.take(served.len() as int + 1) =~= tiles);
        }
    }
}

/// Staging that cannot go on has staged all attachments before the one that is not missing, and
/// nothing of that one.
pub proof fn staging_goes_as_far_as_possible(
    atlas: AtlasView,
    count: nat,
    stopped: AtlasView,
) -> (staged: nat)
    requires
        atlas.stage_stops(count, stopped),
    ensures
        staged < count,
        atlas.can_stage_next(staged),
        stopped == atlas.stage_next(staged),
        stopped.pending.len() == 0 || !stopped.can_stage(stopped.pending.first().0),
    decreases count,
{
    if atlas.pending.len() > 0 && atlas.can_stage(atlas.pending.first().0) {
        let further = staging_goes_as_far_as_possible(
            atlas.stage_first(),
            (count - 1) as nat,
            stopped,
        );
        further + 1
    } else {
        0
    }
}

/// The reports of an atlas name its terrain, and the tiles that became ready or were dropped with
/// their slots, in order.
pub proof fn reports_name_their_tiles(terrain: u64, tiles: Seq<(TileCoordinate, u32)>, i: int)
    requires
        0 <= i < tiles.len(),
    ensures
        ready_messages(terrain, tiles).len() == tiles.len(),
        ready_messages(terrain, tiles)[i].terrain == terrain,
        ready_messages(terrain, tiles)[i].coordinate == tiles[i].0,
        ready_messages(terrain, tiles)[i].atlas_index == tiles[i].1,
        dropped_messages(terrain, tiles).len() == tiles.len(),
        dropped_messages(terrain, tiles)[i].terrain == terrain,
        dropped_messages(terrain, tiles)[i].coordinate == tiles[i].0,
        dropped_messages(terrain, tiles)[i].atlas_index == tiles[i].1,
{
}

/// A tile tree whose lists were taken over has nothing to report, and still demands the same tiles.
pub proof fn taken_reports_are_empty(tree: TreeView, tile: TileCoordinate)
    ensures
        tree.reported().released.len() == 0,
        tree.reported().requested.len() == 0,
        tree.reported().demand().contains(tile) == tree.demand().contains(tile),
        tree.reported() == (TreeView {
            released: tree.reported().released,
            requested: tree.reported().requested,
            ..tree
        }),
{
}

/// An atlas begins with the tiles and levels of its terrain, all of its slots unused in order, and
/// nothing else. Its attachments are those of the terrain, each configured as there.
pub proof fn new_atlases_are_empty(
    atlas: AtlasView,
    config: TerrainConfig,
    size: u32,
    tile: TileCoordinate,
    i: int,
)
    requires
        atlas.is_new(config, size),
    ensures
        atlas.size == size,
        atlas.lod_count == config.lod_count,
        atlas.existing.contains(tile) <==> config.tiles@.contains(tile),
        !atlas.tiles.contains_key(tile),
        !atlas.resident().contains_key(tile),
        atlas.unused.len() == size,
        0 <= i < size ==> atlas.unused[i] == i,
        atlas.generation == 0,
        atlas.to_load.len() == 0,
        atlas.pending.len() + atlas.uploading.len() + atlas.ready.len() + atlas.dropped.len() == 0,
        0 <= i < config.attachments@.len() ==> atlas.attachments.contains_key(
            config.attachments@[i].0@,
        ) && atlas.attachments[config.attachments@[i].0@].format == config.attachments@[i].1.format
            && atlas.attachments[config.attachments@[i].0@].texture_size
            == config.attachments@[i].1.texture_size,
{
    if 0 <= i < config.attachments@.len() {
        assert(config.label(i) == config.attachments@[i].0@);
    }
}

/// The first request of a new atlas gets the first slot, and its loads are for the first generation.
pub proof fn first_requests_get_the_first_slot(
    atlas: AtlasView,
    config: TerrainConfig,
    size: u32,
    tile: TileCoordinate,
)
    requires
        atlas.is_new(config, size),
        size > 0,
        config.tiles@.contains(tile),
    ensures
        atlas.can_request(tile),
        atlas.request(tile).tiles.contains_key(tile),
        atlas.request(tile).tiles[tile].atlas_index == 0,
        atlas.request(tile).tiles[tile].generation == 1,
        atlas.request(tile).tiles[tile].requests == 1,
{
}

/// Starting the loads, exchanging the staged attachments and reporting the changes each empty or
/// exchange their own lists of the atlas, and change nothing else.
pub proof fn lists_are_handed_over(atlas: AtlasView, tiles: Seq<AttachmentTileWithData>)
    ensures
        atlas.started().to_load.len() == 0,
        atlas.started() == (AtlasView { to_load: atlas.started().to_load, ..atlas }),
        atlas.staging(tiles).uploading == tiles,
        atlas.staging(tiles) == (AtlasView { uploading: atlas.staging(tiles).uploading, ..atlas }),
        atlas.staging(tiles).staging(atlas.uploading) == atlas,
        atlas.announced().ready.len() == 0,
        atlas.announced().dropped.len() == 0,
        atlas.announced() == (AtlasView {
            ready: atlas.announced().ready,
            dropped: atlas.announced().dropped,
            ..atlas
        }),
{
}

/// A load names its tile, its attachment and the generation that it was issued for; the loads stay in
/// order.
pub proof fn loads_name_their_tiles(loads: Seq<AttachmentTile>, i: int)
    requires
        0 <= i < loads.len(),
    ensures
        load_views(loads).len() == loads.len(),
        load_views(loads)[i].coordinate == loads[i].coordinate,
        load_views(loads)[i].label == loads[i].label@,
        load_views(loads)[i].generation == loads[i].generation,
{
}

/// New loads come behind those that were there, one after the other, for the tiles and generations
/// that they were issued for.
pub proof fn loads_are_added_behind(
    before: Seq<AttachmentTileView>,
    after: Seq<AttachmentTileView>,
    issued: Seq<(TileCoordinate, u32)>,
    i: int,
)
    requires
        adds_loads(before, after, issued),
    ensures
        after.len() == before.len() + issued.len(),
        0 <= i < before.len() ==> after[i] == before[i],
        0 <= i < issued.len() ==> after[before.len() + i].coordinate == issued[i].0 && after[
        before.len() + i].generation == issued[i].1,
{
    let all = loaded_for(before) + issued;
    assert(loaded_for(after).len() == all.len());
    if 0 <= i < before.len() {
        assert(after.subrange(0, before.len() as int)[i] == before[i]);
    }
    if 0 <= i < issued.len() {
        let k = before.len() + i;
        assert(loaded_for(after)[k] == all[k]);
    }
}

/// A request issues one load for each attachment of a tile that gets a slot, for the state that the
/// tile then has, and none otherwise. Several requests issue theirs one after the other.
pub proof fn requests_issue_their_loads(
    atlas: AtlasView,
    tile: TileCoordinate,
    tiles: Seq<TileCoordinate>,
    i: int,
)
    ensures
        !atlas.existing.contains(tile) || atlas.tiles.contains_key(tile) ==> atlas.issued_by(
            tile,
        ).len() == 0,
        atlas.existing.contains(tile) && !atlas.tiles.contains_key(tile) ==> atlas.issued_by(
            tile,
        ).len() == atlas.attachments.dom().len(),
        0 <= i < atlas.issued_by(tile).len() ==> atlas.issued_by(tile)[i].0 == tile
            && atlas.issued_by(tile)[i].1 == atlas.request(tile).tiles[tile].generation,
        atlas.issued_by_all(Seq::empty()).len() == 0,
        atlas.issued_by_all(tiles.push(tile)) == atlas.issued_by_all(tiles) + atlas.request_all(
            tiles,
        ).issued_by(tile),
{
    assert(tiles.push(tile).drop_last() =~= tiles);
}

} // verus!
