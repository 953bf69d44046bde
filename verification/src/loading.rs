//! How the loads of tiles are accounted for.

use vstd::prelude::*;
use vstd::multiset::Multiset;
use crate::attachment::{AttachmentData, AttachmentTile, AttachmentTileView, LabelView};
use crate::coordinate::TileCoordinate;
use crate::tile_atlas::{
    evict_facts, next_generation, stage_keeps_wf, AtlasView, LoadingState,
};

verus! {

/// The number of attachments that a tile misses.
pub open spec fn missing(state: LoadingState) -> nat {
    match state {
        LoadingState::Loading(count) => count as nat,
        LoadingState::Loaded => 0,
    }
}

/// The loads of a tile, as far as they have the given generation.
pub open spec fn loads_for(
    outstanding: Set<AttachmentTileView>,
    tile: TileCoordinate,
    generation: u32,
) -> Set<AttachmentTileView> {
    outstanding.filter(
        |load: AttachmentTileView| load.coordinate == tile && load.generation == generation,
    )
}

/// The number of attachments of a tile that wait to be staged.
pub open spec fn waiting_for(
    pending: Seq<(AttachmentTile, AttachmentData)>,
    tile: TileCoordinate,
) -> nat
    decreases pending.len(),
{
    if pending.len() == 0 {
        0
    } else if pending.last().0.coordinate == tile {
        waiting_for(pending.drop_last(), tile) + 1
    } else {
        waiting_for(pending.drop_last(), tile)
    }
}

/// Whether the loads add up: every attachment that a tile misses is either still to be received or
/// waits to be staged. `outstanding` holds the loads that were issued and not yet received.
pub open spec fn accounts(atlas: AtlasView, outstanding: Set<AttachmentTileView>) -> bool {
    &&& outstanding.finite()
    &&& forall|tile: TileCoordinate| #[trigger]
        atlas.tiles.contains_key(tile) ==> missing(atlas.tiles[tile].state) == loads_for(
            outstanding,
            tile,
            atlas.tiles[tile].generation,
        ).len() + waiting_for(atlas.pending, tile)
}

/// One more attachment waits.
proof fn waiting_after_push(
    pending: Seq<(AttachmentTile, AttachmentData)>,
    entry: (AttachmentTile, AttachmentData),
    tile: TileCoordinate,
)
    ensures
        waiting_for(pending.push(entry), tile) == waiting_for(pending, tile)
            + if entry.0.coordinate == tile {
            1nat
        } else {
            0nat
        },
{
    assert(pending.push(entry).drop_last() =~= pending);
}

/// The first attachment no longer waits.
pub proof fn waiting_after_first(pending: Seq<(AttachmentTile, AttachmentData)>, tile: TileCoordinate)
    requires
        pending.len() > 0,
    ensures
        waiting_for(pending, tile) == waiting_for(pending.drop_first(), tile)
            + if pending.first().0.coordinate == tile {
            1nat
        } else {
            0nat
        },
    decreases pending.len(),
{
    if pending.len() == 1 {
        assert(pending.drop_last() =~= Seq::<(AttachmentTile, AttachmentData)>::empty());
        assert(pending.drop_first() =~= Seq::<(AttachmentTile, AttachmentData)>::empty());
    } else {
        waiting_after_first(pending.drop_last(), tile);
        assert(pending.drop_last().drop_first() =~= pending.drop_first().drop_last());
    }
}

/// Attachments of other tiles still wait when those of one tile are discarded.
proof fn waiting_after_discard(
    pending: Seq<(AttachmentTile, AttachmentData)>,
    gone: TileCoordinate,
    tile: TileCoordinate,
)
    requires
        tile != gone,
    ensures
        waiting_for(
            pending.filter(
                |entry: (AttachmentTile, AttachmentData)| entry.0.coordinate != gone,
            ),
            tile,
        ) == waiting_for(pending, tile),
    decreases pending.len(),
{
    reveal(Seq::filter);
    if pending.len() > 0 {
        let keep = |entry: (AttachmentTile, AttachmentData)| entry.0.coordinate != gone;
        waiting_after_discard(pending.drop_last(), gone, tile);
        waiting_after_push(pending.drop_last().filter(keep), pending.last(), tile);
    }
}

/// Nothing waits for a tile that no entry names.
proof fn waiting_for_nothing(pending: Seq<(AttachmentTile, AttachmentData)>, tile: TileCoordinate)
    requires
        forall|i: int| 0 <= i < pending.len() ==> (#[trigger] pending[i]).0.coordinate != tile,
    ensures
        waiting_for(pending, tile) == 0,
    decreases pending.len(),
{
    if pending.len() > 0 {
        let front = pending.drop_last();
        assert forall|i: int| 0 <= i < front.len() implies (#[trigger] front[i]).0.coordinate
            != tile by {
            assert(pending[i] == front[i]);
        }
        waiting_for_nothing(front, tile);
        assert(pending[pending.len() - 1] == pending.last());
    }
}

/// A tile has as many loads as the atlas has attachments.
proof fn loads_of_a_tile(atlas: AtlasView, tile: TileCoordinate, generation: u32)
    requires
        atlas.attachments.dom().finite(),
    ensures
        atlas.loads_of(tile, generation).finite(),
        atlas.loads_of(tile, generation).len() == atlas.attachments.dom().len(),
{
    let load_of = |label: LabelView| AttachmentTileView { coordinate: tile, label, generation };
    let labels = atlas.attachments.dom();
    let loads = atlas.loads_of(tile, generation);
    assert(labels.map(load_of) =~= loads) by {
        assert forall|load: AttachmentTileView| loads.contains(load) implies #[trigger] labels.map(
            load_of,
        ).contains(load) by {
            assert(labels.contains(load.label));
            assert(load_of(load.label) == load);
        }
    }
    assert(vstd::relations::injective_on(load_of, labels));
    vstd::set_lib::lemma_map_size(labels, loads, load_of);
}

/// The loads of a tile are one for each attachment.
pub proof fn issued_loads_are_counted(atlas: AtlasView, tile: TileCoordinate, generation: u32)
    requires
        atlas.attachments.dom().finite(),
    ensures
        forall|load: AttachmentTileView| #[trigger]
            Multiset::from_set(atlas.loads_of(tile, generation)).count(load) == (
            if load.coordinate == tile && load.generation == generation
                && atlas.attachments.contains_key(load.label) {
                1nat
            } else {
                0nat
            }),
{
    loads_of_a_tile(atlas, tile, generation);
    let loads = atlas.loads_of(tile, generation);
    let ones = Map::new(
        |load: AttachmentTileView| loads.contains(load),
        |load: AttachmentTileView| 1nat,
    );
    assert(ones.dom() =~= loads);
    assert(Multiset::from_set(loads) == Multiset::from_map(ones));
}

/// An atlas without tiles has nothing to account for.
pub proof fn new_atlas_accounts(atlas: AtlasView)
    requires
        atlas.tiles.dom() == Set::<TileCoordinate>::empty(),
    ensures
        accounts(atlas, Set::empty()),
{
    assert forall|tile: TileCoordinate| !#[trigger] atlas.tiles.contains_key(tile) by {
        assert(!atlas.tiles.dom().contains(tile));
    }
}

/// The loads still add up after a request, which issues the loads of a tile that was not present. No
/// load of the new generation of the tile may be outstanding, which is so unless the generations have
/// gone through their whole range in the meantime.
pub proof fn requests_account(
    atlas: AtlasView,
    outstanding: Set<AttachmentTileView>,
    tile: TileCoordinate,
)
    requires
        atlas.wf(),
        atlas.can_request(tile),
        accounts(atlas, outstanding),
        atlas.attachments.dom().len() <= u32::MAX,
        !atlas.tiles.contains_key(tile) ==> loads_for(
            outstanding,
            tile,
            next_generation(atlas.generation),
        ) == Set::<AttachmentTileView>::empty(),
    ensures
        accounts(
            atlas.request(tile),
            if atlas.existing.contains(tile) && !atlas.tiles.contains_key(tile) {
                outstanding.union(atlas.loads_of(tile, next_generation(atlas.generation)))
            } else {
                outstanding
            },
        ),
{
    let after = atlas.request(tile);
    if atlas.existing.contains(tile) && !atlas.tiles.contains_key(tile) {
        assert(atlas.attachments.dom().finite()) by {
            reveal(AtlasView::wf);
        }
        let generation = next_generation(atlas.generation);
        let issued = atlas.loads_of(tile, generation);
        loads_of_a_tile(atlas, tile, generation);
        let now = outstanding.union(issued);
        let slot = atlas.unused.first();
        let evicted = atlas.evict(slot);
        evict_facts(atlas, slot);
        assert forall|other: TileCoordinate| #[trigger] after.tiles.contains_key(other) implies
            missing(after.tiles[other].state) == loads_for(
            now,
            other,
            after.tiles[other].generation,
        ).len() + waiting_for(after.pending, other) by {
            if other == tile {
                assert(loads_for(now, tile, generation) =~= issued) by {
                    assert forall|load: AttachmentTileView| loads_for(
                        now,
                        tile,
                        generation,
                    ).contains(load) implies issued.contains(load) by {
                        if outstanding.contains(load) {
                            assert(loads_for(outstanding, tile, generation).contains(load));
                        }
                    }
                }
                assert forall|i: int| 0 <= i < after.pending.len() implies (
                #[trigger] after.pending[i]).0.coordinate != tile by {
                    assert(evicted.current(evicted.pending[i].0));
                    assert(evicted.tiles.contains_key(evicted.pending[i].0.coordinate));
                }
                waiting_for_nothing(after.pending, tile);
            } else {
                assert(evicted.tiles.contains_key(other));
                assert(atlas.tiles.contains_key(other));
                let kept = atlas.tiles[other].generation;
                assert(loads_for(now, other, kept) =~= loads_for(outstanding, other, kept));
                match atlas.occupant(slot) {
                    None => {},
                    Some(gone) => {
                        assert(atlas.occupies(gone, slot));
                        waiting_after_discard(atlas.pending, gone, other);
                    },
                }
            }
        }
    } else {
        assert forall|other: TileCoordinate| #[trigger] after.tiles.contains_key(other) implies
            missing(after.tiles[other].state) == loads_for(
            outstanding,
            other,
            after.tiles[other].generation,
        ).len() + waiting_for(after.pending, other) by {
            assert(atlas.tiles.contains_key(other));
        }
    }
}

/// The loads still add up after a release.
pub proof fn releases_account(
    atlas: AtlasView,
    outstanding: Set<AttachmentTileView>,
    tile: TileCoordinate,
)
    requires
        atlas.wf(),
        atlas.can_release(tile),
        accounts(atlas, outstanding),
    ensures
        accounts(atlas.release(tile), outstanding),
{
    let after = atlas.release(tile);
    assert forall|other: TileCoordinate| #[trigger] after.tiles.contains_key(other) implies missing(
        after.tiles[other].state,
    ) == loads_for(outstanding, other, after.tiles[other].generation).len() + waiting_for(
        after.pending,
        other,
    ) by {
        assert(atlas.tiles.contains_key(other));
    }
}

/// The loads still add up after one of them was received, whether it is still current or not.
pub proof fn received_loads_account(
    atlas: AtlasView,
    outstanding: Set<AttachmentTileView>,
    load: AttachmentTile,
    data: AttachmentData,
)
    requires
        atlas.wf(),
        accounts(atlas, outstanding),
        outstanding.contains(load@),
    ensures
        accounts(atlas.receive(load, data), outstanding.remove(load@)),
{
    let after = atlas.receive(load, data);
    let now = outstanding.remove(load@);
    assert forall|tile: TileCoordinate| #[trigger] after.tiles.contains_key(tile) implies missing(
        after.tiles[tile].state,
    ) == loads_for(now, tile, after.tiles[tile].generation).len() + waiting_for(
        after.pending,
        tile,
    ) by {
        assert(atlas.tiles.contains_key(tile));
        let generation = atlas.tiles[tile].generation;
        waiting_after_push(atlas.pending, (load, data), tile);
        if load.coordinate == tile && load.generation == generation {
            assert(loads_for(outstanding, tile, generation).contains(load@));
            assert(loads_for(now, tile, generation) =~= loads_for(
                outstanding,
                tile,
                generation,
            ).remove(load@));
        } else {
            assert(loads_for(now, tile, generation) =~= loads_for(outstanding, tile, generation));
        }
    }
}

/// The attachment that has waited longest can be staged, and the loads still add up then.
pub proof fn staged_loads_account(atlas: AtlasView, outstanding: Set<AttachmentTileView>)
    requires
        atlas.wf(),
        accounts(atlas, outstanding),
        atlas.pending.len() > 0,
    ensures
        atlas.can_stage(atlas.pending.first().0),
        accounts(atlas.stage_first(), outstanding),
{
    let load = atlas.pending.first().0;
    assert(atlas.current(load)) by {
        reveal(AtlasView::wf);
        assert(atlas.current(atlas.pending[0].0));
    }
    let tile = load.coordinate;
    waiting_after_first(atlas.pending, tile);
    assert(atlas.can_stage(load));
    let after = atlas.stage_first();
    assert forall|other: TileCoordinate| #[trigger] after.tiles.contains_key(other) implies missing(
        after.tiles[other].state,
    ) == loads_for(outstanding, other, after.tiles[other].generation).len() + waiting_for(
        after.pending,
        other,
    ) by {
        assert(atlas.tiles.contains_key(other));
        waiting_after_first(atlas.pending, other);
    }
}

/// Where the loads add up, every frame can stage its attachments: no tile ever receives more
/// attachments than it misses.
pub proof fn staging_never_fails(atlas: AtlasView, outstanding: Set<AttachmentTileView>, count: nat)
    requires
        atlas.wf(),
        accounts(atlas, outstanding),
        count <= atlas.pending.len(),
    ensures
        atlas.can_stage_next(count),
        atlas.stage_next(count).wf(),
        accounts(atlas.stage_next(count), outstanding),
    decreases count,
{
    if count > 0 {
        staged_loads_account(atlas, outstanding);
        stage_keeps_wf(atlas);
        assert(atlas.stage_first().pending =~= atlas.pending.drop_first());
        staging_never_fails(atlas.stage_first(), outstanding, (count - 1) as nat);
    }
}

} // verus!
