//! Which tiles an atlas can serve, and how that changes.

use vstd::prelude::*;
use crate::attachment::{AttachmentData, AttachmentTile};
use crate::coordinate::{invalid_tile, parent_tile, TileCoordinate};
use crate::tile_atlas::{
    evict_facts, nearest_loaded, occupant_is_unique, staged_after, staged_count, AtlasView,
    UPLOAD_BUDGET_BYTES,
};
use crate::tile_tree::{no_entry, TileTreeEntry, TreeView};

verus! {

/// The tile that covers `tile`, the given number of levels of detail above it.
pub open spec fn ancestor(tile: TileCoordinate, levels: nat) -> Option<TileCoordinate>
    decreases levels,
{
    if levels == 0 {
        Some(tile)
    } else {
        match parent_tile(tile) {
            Some(parent) => ancestor(parent, (levels - 1) as nat),
            None => None,
        }
    }
}

/// Whether the tile `levels` above `tile` is loaded.
pub open spec fn loaded_above(
    resident: Map<TileCoordinate, u32>,
    tile: TileCoordinate,
    levels: nat,
) -> bool {
    ancestor(tile, levels) matches Some(covering) && resident.contains_key(covering)
}

/// The best tile is the finest loaded one among the tile and those that cover it; there is none if
/// and only if none of them is loaded.
pub proof fn best_tile_is_the_finest_loaded(
    resident: Map<TileCoordinate, u32>,
    tile: TileCoordinate,
) -> (levels: nat)
    requires
        tile != invalid_tile(),
    ensures
        loaded_above(resident, tile, levels) ==> {
            &&& nearest_loaded(resident, tile) == (TileTreeEntry {
                atlas_index: resident[ancestor(tile, levels)->Some_0],
                atlas_lod: ancestor(tile, levels)->Some_0.lod,
            })
            &&& forall|finer: nat| finer < levels ==> !#[trigger] loaded_above(
                resident,
                tile,
                finer,
            )
        },
        !loaded_above(resident, tile, levels) ==> {
            &&& nearest_loaded(resident, tile) == no_entry()
            &&& forall|any: nat| !#[trigger] loaded_above(resident, tile, any)
        },
    decreases tile.lod,
{
    if loaded_above(resident, tile, 0) {
        0
    } else if parent_tile(tile) is None {
        0
    } else {
        let parent = parent_tile(tile)->Some_0;
        let above = best_tile_is_the_finest_loaded(resident, parent);
        assert(ancestor(tile, above + 1) == ancestor(parent, above));
        assert forall|levels: nat| levels > 0 implies #[trigger] loaded_above(resident, tile, levels)
            == loaded_above(resident, parent, (levels - 1) as nat) by {}
        assert(loaded_above(resident, tile, above + 1) == loaded_above(resident, parent, above));
        above + 1
    }
}

/// A request changes the tiles that can be served only by dropping the one whose slot it takes, and
/// then reports it.
pub proof fn requests_report_drops(atlas: AtlasView, tile: TileCoordinate)
    requires
        atlas.wf(),
        atlas.can_request(tile),
    ensures
        ({
            let after = atlas.request(tile);
            &&& after.ready == atlas.ready
            &&& if after.dropped.len() == atlas.dropped.len() {
                after.dropped == atlas.dropped && after.resident() == atlas.resident()
            } else {
                let lost = after.dropped.last();
                &&& after.dropped == atlas.dropped.push(lost)
                &&& atlas.resident().contains_key(lost.0)
                &&& atlas.resident()[lost.0] == lost.1
                &&& after.resident() == atlas.resident().remove(lost.0)
            }
        }),
{
    let after = atlas.request(tile);
    if atlas.existing.contains(tile) && !atlas.tiles.contains_key(tile) {
        let slot = atlas.unused.first();
        evict_facts(atlas, slot);
        match atlas.occupant(slot) {
            None => {
                assert(after.resident() =~= atlas.resident());
            },
            Some(lost) => {
                assert(atlas.occupies(lost, slot));
                occupant_is_unique(atlas, lost, slot);
                if atlas.tiles[lost].state is Loaded {
                    assert(after.dropped.drop_last() =~= atlas.dropped);
                    assert(after.resident() =~= atlas.resident().remove(lost));
                } else {
                    assert(after.resident() =~= atlas.resident());
                }
            },
        }
    } else {
        assert(after.resident() =~= atlas.resident());
    }
}

/// A release does not change the tiles that can be served: a tile without users stays cached.
pub proof fn released_tiles_stay_cached(atlas: AtlasView, tile: TileCoordinate)
    requires
        atlas.wf(),
        atlas.can_release(tile),
    ensures
        atlas.release(tile).resident() == atlas.resident(),
        atlas.release(tile).ready == atlas.ready,
        atlas.release(tile).dropped == atlas.dropped,
{
    assert(atlas.release(tile).resident() =~= atlas.resident());
}

/// Staging an attachment changes the tiles that can be served only by adding the tile that it
/// completes, and then reports it.
pub proof fn staging_reports_readiness(atlas: AtlasView)
    requires
        atlas.wf(),
        atlas.pending.len() > 0,
        atlas.can_stage(atlas.pending.first().0),
    ensures
        ({
            let after = atlas.stage_first();
            &&& after.dropped == atlas.dropped
            &&& if after.ready.len() == atlas.ready.len() {
                after.ready == atlas.ready && after.resident() == atlas.resident()
            } else {
                let gained = after.ready.last();
                &&& after.ready == atlas.ready.push(gained)
                &&& !atlas.resident().contains_key(gained.0)
                &&& after.resident() == atlas.resident().insert(gained.0, gained.1)
            }
        }),
{
    let after = atlas.stage_first();
    let load = atlas.pending.first().0;
    if atlas.current(load) && atlas.tiles[load.coordinate].state->Loading_0 == 1 {
        assert(after.ready.drop_last() =~= atlas.ready);
        assert(after.resident() =~= atlas.resident().insert(
            load.coordinate,
            atlas.tiles[load.coordinate].atlas_index,
        ));
    } else {
        assert(after.resident() =~= atlas.resident());
    }
}

/// Releases do not change the tiles that can be served.
proof fn releases_keep_residency(atlas: AtlasView, tiles: Seq<TileCoordinate>)
    requires
        atlas.wf(),
        atlas.can_release_all(tiles),
    ensures
        atlas.release_all(tiles).wf(),
        atlas.release_all(tiles).existing == atlas.existing,
        atlas.release_all(tiles).resident() == atlas.resident(),
        atlas.release_all(tiles).ready == atlas.ready,
        atlas.release_all(tiles).dropped == atlas.dropped,
    decreases tiles.len(),
{
    if tiles.len() > 0 {
        releases_keep_residency(atlas, tiles.drop_last());
        let before = atlas.release_all(tiles.drop_last());
        crate::tile_atlas::release_keeps_wf(before, tiles.last());
        released_tiles_stay_cached(before, tiles.last());
    }
}

/// Requests change the tiles that can be served only where they report it.
proof fn requests_keep_residency(atlas: AtlasView, tiles: Seq<TileCoordinate>)
    requires
        atlas.wf(),
        atlas.can_request_all(tiles),
    ensures
        atlas.request_all(tiles).wf(),
        atlas.request_all(tiles).existing == atlas.existing,
        atlas.request_all(tiles).ready == atlas.ready,
        atlas.request_all(tiles).dropped.len() >= atlas.dropped.len(),
        atlas.request_all(tiles).dropped.len() == atlas.dropped.len() ==> atlas.request_all(
            tiles,
        ).resident() == atlas.resident(),
    decreases tiles.len(),
{
    if tiles.len() > 0 {
        requests_keep_residency(atlas, tiles.drop_last());
        let before = atlas.request_all(tiles.drop_last());
        crate::tile_atlas::request_keeps_wf(before, tiles.last());
        requests_report_drops(before, tiles.last());
    }
}

/// Staging changes the tiles that can be served only where it reports it.
proof fn staging_keeps_residency(atlas: AtlasView, count: nat)
    requires
        atlas.wf(),
        atlas.can_stage_next(count),
    ensures
        atlas.stage_next(count).wf(),
        atlas.stage_next(count).existing == atlas.existing,
        atlas.stage_next(count).dropped == atlas.dropped,
        atlas.stage_next(count).ready.len() >= atlas.ready.len(),
        atlas.stage_next(count).ready.len() == atlas.ready.len() ==> atlas.stage_next(
            count,
        ).resident() == atlas.resident(),
    decreases count,
{
    if count > 0 {
        crate::tile_atlas::stage_keeps_wf(atlas);
        staging_reports_readiness(atlas);
        staging_keeps_residency(atlas.stage_first(), (count - 1) as nat);
    }
}

/// What a tile tree reports: the tiles to release and the tiles to request.
pub type Report = (Seq<TileCoordinate>, Seq<TileCoordinate>);

/// The atlas after it has taken over the reports of several tile trees.
pub open spec fn update_all(atlas: AtlasView, reports: Seq<Report>) -> AtlasView
    decreases reports.len(),
{
    if reports.len() == 0 {
        atlas
    } else {
        update_all(atlas, reports.drop_last()).update(reports.last().0, reports.last().1)
    }
}

/// Whether the atlas can take over the reports of several tile trees.
pub open spec fn can_update_all(atlas: AtlasView, reports: Seq<Report>) -> bool
    decreases reports.len(),
{
    reports.len() > 0 ==> {
        &&& can_update_all(atlas, reports.drop_last())
        &&& update_all(atlas, reports.drop_last()).can_update(reports.last().0, reports.last().1)
    }
}

/// The atlas after a frame: attachments are staged, then the reports of its views are taken over.
pub open spec fn frame(atlas: AtlasView, staged: nat, reports: Seq<Report>) -> AtlasView {
    update_all(atlas.stage_next(staged), reports)
}

/// Whether the atlas can serve a frame.
pub open spec fn can_serve(atlas: AtlasView, staged: nat, reports: Seq<Report>) -> bool {
    atlas.can_stage_next(staged) && can_update_all(atlas.stage_next(staged), reports)
}

/// Reports of tile trees change the tiles that can be served only where the atlas reports it.
proof fn updates_keep_residency(atlas: AtlasView, reports: Seq<Report>)
    requires
        atlas.wf(),
        can_update_all(atlas, reports),
    ensures
        ({
            let after = update_all(atlas, reports);
            &&& after.wf()
            &&& after.existing == atlas.existing
            &&& after.ready == atlas.ready
            &&& after.dropped.len() >= atlas.dropped.len()
            &&& after.dropped.len() == atlas.dropped.len() ==> after.resident() == atlas.resident()
        }),
    decreases reports.len(),
{
    if reports.len() > 0 {
        updates_keep_residency(atlas, reports.drop_last());
        let before = update_all(atlas, reports.drop_last());
        let (released, requested) = reports.last();
        releases_keep_residency(before, released);
        requests_keep_residency(before.release_all(released), requested);
    }
}

/// In a frame in which an atlas reports no tile as ready or dropped, the best tiles stay the same
/// everywhere.
pub proof fn best_tiles_change_only_where_reported(
    atlas: AtlasView,
    staged: nat,
    reports: Seq<Report>,
    tile: TileCoordinate,
)
    requires
        atlas.wf(),
        can_serve(atlas, staged, reports),
        frame(atlas, staged, reports).ready.len() == atlas.ready.len(),
        frame(atlas, staged, reports).dropped.len() == atlas.dropped.len(),
    ensures
        frame(atlas, staged, reports).best_tile(tile) == atlas.best_tile(tile),
{
    staging_keeps_residency(atlas, staged);
    updates_keep_residency(atlas.stage_next(staged), reports);
}

/// A tile tree that was not updated, and whose atlas reports no change, does not have to be adjusted:
/// its entries are already those that it would be given.
pub proof fn skipped_adjustments_change_nothing(
    tree: TreeView,
    atlas: AtlasView,
    staged: nat,
    reports: Seq<Report>,
)
    requires
        tree.wf(),
        atlas.wf(),
        tree.entries == tree.adjust(atlas, true).entries,
        can_serve(atlas, staged, reports),
        frame(atlas, staged, reports).ready.len() == atlas.ready.len(),
        frame(atlas, staged, reports).dropped.len() == atlas.dropped.len(),
    ensures
        tree.entries == tree.adjust(frame(atlas, staged, reports), true).entries,
{
    let after = frame(atlas, staged, reports);
    assert forall|cell: crate::grid::Cell| tree.tiles.contains_key(cell) implies #[trigger]
        tree.adjust(after, true).entries[cell] == tree.entries[cell] by {
        best_tiles_change_only_where_reported(
            atlas,
            staged,
            reports,
            tree.tiles[cell].coordinate,
        );
        assert(tree.adjust(atlas, true).entries[cell] == tree.entries[cell]);
    }
    assert(tree.adjust(after, true).entries =~= tree.adjust(atlas, true).entries);
}

/// Releasing a tile and requesting it again leaves the atlas as it was, whoever else uses the tile.
pub proof fn release_then_request_is_identity(atlas: AtlasView, tile: TileCoordinate)
    requires
        atlas.wf(),
        atlas.can_release(tile),
    ensures
        atlas.release(tile).can_request(tile),
        atlas.release(tile).request(tile) == atlas,
{
    reveal(AtlasView::wf);
    if atlas.existing.contains(tile) {
        let state = atlas.tiles[tile];
        let released = atlas.release(tile);
        let after = released.request(tile);
        assert(after.tiles =~= atlas.tiles);
        if state.requests == 1 {
            let keep = |slot: u32| slot != state.atlas_index;
            assert(!atlas.unused.contains(state.atlas_index));
            crate::tile_atlas::filter_keeps_all(atlas.unused, keep);
            assert(released.unused.drop_last() =~= atlas.unused);
            assert(released.unused.filter(keep) =~= atlas.unused) by {
                reveal(Seq::filter);
            }
        }
    }
}

/// A tile whose users come back is served from the cache: no load is issued.
pub proof fn cached_tiles_are_not_loaded_again(atlas: AtlasView, tile: TileCoordinate)
    requires
        atlas.wf(),
        atlas.tiles.contains_key(tile),
        atlas.can_request(tile),
    ensures
        atlas.request(tile).to_load == atlas.to_load,
        atlas.request(tile).resident() == atlas.resident(),
        atlas.request(tile).generation == atlas.generation,
{
    assert(atlas.request(tile).resident() =~= atlas.resident());
}

/// A request takes no slot but the one that has been unused longest, so it never evicts a tile that
/// a view uses.
pub proof fn requests_evict_the_longest_unused(
    atlas: AtlasView,
    tile: TileCoordinate,
    other: TileCoordinate,
)
    requires
        atlas.wf(),
        atlas.can_request(tile),
        atlas.tiles.contains_key(other),
        other != tile,
        atlas.tiles[other].requests > 0 || atlas.tiles[other].atlas_index != atlas.unused.first(),
    ensures
        atlas.request(tile).tiles.contains_key(other),
        atlas.request(tile).tiles[other] == atlas.tiles[other],
{
    reveal(AtlasView::wf);
    if atlas.existing.contains(tile) && !atlas.tiles.contains_key(tile) {
        let slot = atlas.unused.first();
        assert(atlas.unused[0] == slot);
        assert(atlas.unused.contains(slot));
        evict_facts(atlas, slot);
        assert(atlas.evict(slot).tiles.contains_key(other));
    }
}

/// After a tile was given a slot, only loads that were issued for it then count: those that were
/// issued for an earlier stay of the tile, and those for the tile that it replaced, do not.
pub proof fn earlier_loads_are_stale(
    atlas: AtlasView,
    tile: TileCoordinate,
    load: AttachmentTile,
    data: AttachmentData,
)
    requires
        atlas.wf(),
        atlas.can_request(tile),
        atlas.existing.contains(tile),
        !atlas.tiles.contains_key(tile),
        load.coordinate == tile && load.generation != atlas.request(tile).generation
            || atlas.occupies(load.coordinate, atlas.unused.first()),
    ensures
        atlas.request(tile).receive(load, data) == atlas.request(tile),
{
    reveal(AtlasView::wf);
    let slot = atlas.unused.first();
    evict_facts(atlas, slot);
    assert(atlas.unused[0] == slot);
}

/// The bytes of the first `count` waiting attachments.
pub open spec fn bytes_of(pending: Seq<(AttachmentTile, AttachmentData)>, count: nat) -> nat
    decreases count,
{
    if count == 0 {
        0
    } else {
        pending.first().1.byte_count() + bytes_of(pending.drop_first(), (count - 1) as nat)
    }
}

/// What staging takes from a queue after `staged` bytes.
proof fn staged_after_facts(pending: Seq<(AttachmentTile, AttachmentData)>, staged: nat)
    ensures
        ({
            let count = staged_after(pending, staged);
            &&& count <= pending.len()
            &&& count > 0 ==> staged + bytes_of(pending, count) <= UPLOAD_BUDGET_BYTES
            &&& count < pending.len() ==> staged + bytes_of(pending, count + 1)
                > UPLOAD_BUDGET_BYTES
        }),
    decreases pending.len(),
{
    reveal_with_fuel(bytes_of, 2);
    if pending.len() > 0 && staged + pending.first().1.byte_count() <= UPLOAD_BUDGET_BYTES {
        staged_after_facts(pending.drop_first(), staged + pending.first().1.byte_count());
    }
}

/// A frame stages no more bytes than the budget allows, unless a single attachment exceeds it: that
/// one is staged alone, so that it makes progress. Staging stops only where the next attachment would
/// exceed the budget.
pub proof fn staging_keeps_the_budget(pending: Seq<(AttachmentTile, AttachmentData)>)
    ensures
        staged_count(pending) <= pending.len(),
        pending.len() > 0 ==> staged_count(pending) > 0,
        staged_count(pending) > 1 ==> bytes_of(pending, staged_count(pending))
            <= UPLOAD_BUDGET_BYTES,
        staged_count(pending) < pending.len() ==> bytes_of(pending, staged_count(pending) + 1)
            > UPLOAD_BUDGET_BYTES,
        staged_count(pending) > 1 ==> bytes_of(pending, staged_count(pending)) <= 8 * 1024 * 1024,
        staged_count(pending) < pending.len() ==> bytes_of(pending, staged_count(pending) + 1) > 8
            * 1024 * 1024,
{
    if pending.len() > 0 {
        staged_after_facts(pending.drop_first(), pending.first().1.byte_count());
    }
}

/// Loads are issued in the order of the requests: those of earlier requests come first.
pub proof fn loads_follow_the_requests(
    atlas: AtlasView,
    earlier: Seq<TileCoordinate>,
    later: Seq<TileCoordinate>,
)
    ensures
        atlas.issued_by_all(earlier + later) == atlas.issued_by_all(earlier) + atlas.request_all(
            earlier,
        ).issued_by_all(later),
        atlas.request_all(earlier + later) == atlas.request_all(earlier).request_all(later),
    decreases later.len(),
{
    if later.len() == 0 {
        assert(earlier + later =~= earlier);
        assert(atlas.issued_by_all(earlier) + atlas.request_all(earlier).issued_by_all(later)
            =~= atlas.issued_by_all(earlier));
    } else {
        loads_follow_the_requests(atlas, earlier, later.drop_last());
        assert((earlier + later).drop_last() =~= earlier + later.drop_last());
        assert(atlas.issued_by_all(earlier + later) =~= atlas.issued_by_all(earlier)
            + atlas.request_all(earlier).issued_by_all(later));
    }
}

/// Staging takes the attachments in the order in which they arrived; the others keep their order.
pub proof fn staging_is_first_in_first_out(atlas: AtlasView, count: nat)
    requires
        atlas.can_stage_next(count),
    ensures
        count <= atlas.pending.len(),
        atlas.stage_next(count).pending == atlas.pending.skip(count as int),
    decreases count,
{
    if count > 0 {
        staging_is_first_in_first_out(atlas.stage_first(), (count - 1) as nat);
        assert(atlas.stage_first().pending =~= atlas.pending.drop_first());
        assert(atlas.pending.drop_first().skip(count - 1) =~= atlas.pending.skip(count as int));
    } else {
        assert(atlas.pending.skip(0) =~= atlas.pending);
    }
}

} // verus!
