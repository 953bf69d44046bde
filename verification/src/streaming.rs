//! How the views of a terrain and its atlas stay in step.

use vstd::prelude::*;
use crate::coordinate::TileCoordinate;
use crate::demand::{
    demanded, occurrences, separate, update_reports_the_change,
};
use crate::residency::requests_evict_the_longest_unused;
use crate::tile_atlas::{
    evict_facts, release_keeps_wf, request_keeps_wf, AtlasView,
};
use crate::tile_tree::{LayerDemand, TreeView};

verus! {

/// How many tile trees use a tile, as the atlas knows it.
pub open spec fn users(atlas: AtlasView, tile: TileCoordinate) -> nat {
    if atlas.tiles.contains_key(tile) {
        atlas.tiles[tile].requests as nat
    } else {
        0
    }
}

/// The tiles that are in use.
pub open spec fn in_use(atlas: AtlasView) -> Set<TileCoordinate> {
    Set::new(|tile: TileCoordinate| users(atlas, tile) > 0)
}

/// The slots of an atlas.
spec fn slots(size: u32) -> Seq<u32> {
    Seq::new(size as nat, |i: int| i as u32)
}

/// Every slot is either unused or holds a tile that is in use.
pub proof fn slots_are_unused_or_in_use(atlas: AtlasView)
    requires
        atlas.wf(),
    ensures
        in_use(atlas).finite(),
        atlas.unused.len() + in_use(atlas).len() == atlas.size,
{
    reveal(AtlasView::wf);
    let used = in_use(atlas);
    assert(used.subset_of(atlas.tiles.dom()));
    vstd::set_lib::lemma_len_subset(used, atlas.tiles.dom());
    let slot_of = |tile: TileCoordinate| atlas.tiles[tile].atlas_index;
    let taken = used.map(slot_of);
    assert(vstd::relations::injective_on(slot_of, used)) by {
        assert forall|a: TileCoordinate, b: TileCoordinate|
            used.contains(a) && used.contains(b) && #[trigger] slot_of(a) == #[trigger] slot_of(
                b,
            ) implies a == b by {
            assert(atlas.tiles.contains_key(a) && atlas.tiles.contains_key(b));
        }
    }
    vstd::set_lib::lemma_map_size(used, taken, slot_of);
    let free = atlas.unused.to_set();
    atlas.unused.unique_seq_to_set();
    vstd::seq_lib::seq_to_set_is_finite(atlas.unused);
    let all = slots(atlas.size);
    assert(all.no_duplicates());
    all.unique_seq_to_set();
    assert(free.disjoint(taken)) by {
        assert forall|slot: u32| free.contains(slot) implies !taken.contains(slot) by {
            if taken.contains(slot) {
                let tile = choose|tile: TileCoordinate| used.contains(tile) && slot_of(tile) == slot;
                assert(atlas.tiles.contains_key(tile));
                assert(atlas.unused.contains(slot));
            }
        }
    }
    assert(free + taken =~= all.to_set()) by {
        assert forall|slot: u32| (free + taken).contains(slot) <==> all.to_set().contains(slot) by {
            if free.contains(slot) {
                let i = choose|i: int| 0 <= i < atlas.unused.len() && atlas.unused[i] == slot;
                assert(all[slot as int] == slot);
            }
            if taken.contains(slot) {
                let tile = choose|tile: TileCoordinate| used.contains(tile) && slot_of(tile) == slot;
                assert(atlas.tiles.contains_key(tile));
                assert(all[slot as int] == slot);
            }
            if all.to_set().contains(slot) {
                let i = choose|i: int| 0 <= i < all.len() && all[i] == slot;
                assert(slot < atlas.size);
                if !atlas.unused.contains(slot) {
                    let tile = choose|tile: TileCoordinate| #[trigger] atlas.occupies(tile, slot);
                    assert(atlas.tiles.contains_key(tile));
                    assert(used.contains(tile));
                    assert(slot_of(tile) == slot);
                    assert(taken.contains(slot));
                }
            }
        }
    }
    vstd::set_lib::lemma_set_disjoint_lens(free, taken);
}

/// Releasing a tile takes one of its users away, and no other's.
proof fn release_counts(atlas: AtlasView, tile: TileCoordinate, other: TileCoordinate)
    requires
        atlas.wf(),
        atlas.can_release(tile),
    ensures
        users(atlas.release(tile), other) == if other == tile && atlas.existing.contains(tile) {
            users(atlas, other) - 1
        } else {
            users(atlas, other) as int
        },
{
}

/// Requesting a tile gives it one more user, and no other tile.
proof fn request_counts(atlas: AtlasView, tile: TileCoordinate, other: TileCoordinate)
    requires
        atlas.wf(),
        atlas.can_request(tile),
    ensures
        users(atlas.request(tile), other) == if other == tile && atlas.existing.contains(tile) {
            users(atlas, other) + 1
        } else {
            users(atlas, other)
        },
{
    if atlas.existing.contains(tile) && other != tile {
        if users(atlas, other) > 0 {
            requests_evict_the_longest_unused(atlas, tile, other);
        } else if !atlas.tiles.contains_key(tile) {
            evict_facts(atlas, atlas.unused.first());
            let evicted = atlas.evict(atlas.unused.first());
            assert(atlas.request(tile).tiles.contains_key(other) == evicted.tiles.contains_key(
                other,
            ));
        }
    }
}

/// Tiles can be released as often as they are used.
proof fn releases_count(atlas: AtlasView, tiles: Seq<TileCoordinate>)
    requires
        atlas.wf(),
        forall|tile: TileCoordinate|
            atlas.existing.contains(tile) ==> #[trigger] occurrences(tiles, tile) <= users(
                atlas,
                tile,
            ),
    ensures
        atlas.can_release_all(tiles),
        atlas.release_all(tiles).wf(),
        atlas.release_all(tiles).size == atlas.size,
        atlas.release_all(tiles).existing == atlas.existing,
        forall|tile: TileCoordinate|
            atlas.existing.contains(tile) ==> #[trigger] users(atlas.release_all(tiles), tile)
                == users(atlas, tile) - occurrences(tiles, tile),
    decreases tiles.len(),
{
    if tiles.len() > 0 {
        let front = tiles.drop_last();
        assert forall|tile: TileCoordinate| atlas.existing.contains(tile) implies #[trigger]
            occurrences(front, tile) <= users(atlas, tile) by {
            assert(occurrences(tiles, tile) <= users(atlas, tile));
        }
        releases_count(atlas, front);
        let before = atlas.release_all(front);
        let last = tiles.last();
        if atlas.existing.contains(last) {
            assert(occurrences(tiles, last) <= users(atlas, last));
            assert(users(before, last) == users(atlas, last) - occurrences(front, last));
        }
        assert(before.can_release(last));
        release_keeps_wf(before, last);
        assert forall|tile: TileCoordinate| atlas.existing.contains(tile) implies #[trigger] users(
            atlas.release_all(tiles),
            tile,
        ) == users(atlas, tile) - occurrences(tiles, tile) by {
            release_counts(before, last, tile);
            assert(users(before, tile) == users(atlas, tile) - occurrences(front, tile));
        }
    }
}

/// The tiles that are in use once tiles are requested.
spec fn needed(atlas: AtlasView, tiles: Seq<TileCoordinate>) -> Set<TileCoordinate> {
    Set::new(
        |tile: TileCoordinate|
            atlas.existing.contains(tile) && users(atlas, tile) + occurrences(tiles, tile) > 0,
    )
}

/// Tiles can be requested while there are enough slots for all that are in use.
proof fn requests_count(atlas: AtlasView, tiles: Seq<TileCoordinate>)
    requires
        atlas.wf(),
        needed(atlas, tiles).finite(),
        needed(atlas, tiles).len() <= atlas.size,
        forall|tile: TileCoordinate|
            atlas.existing.contains(tile) ==> users(atlas, tile) + #[trigger] occurrences(
                tiles,
                tile,
            ) <= u32::MAX,
    ensures
        atlas.can_request_all(tiles),
        atlas.request_all(tiles).wf(),
        atlas.request_all(tiles).size == atlas.size,
        atlas.request_all(tiles).existing == atlas.existing,
        forall|tile: TileCoordinate|
            atlas.existing.contains(tile) ==> #[trigger] users(atlas.request_all(tiles), tile)
                == users(atlas, tile) + occurrences(tiles, tile),
    decreases tiles.len(),
{
    if tiles.len() > 0 {
        let front = tiles.drop_last();
        let all = needed(atlas, tiles);
        assert(needed(atlas, front).subset_of(all));
        vstd::set_lib::lemma_len_subset(needed(atlas, front), all);
        assert forall|tile: TileCoordinate| atlas.existing.contains(tile) implies users(atlas, tile)
            + #[trigger] occurrences(front, tile) <= u32::MAX by {
            assert(users(atlas, tile) + occurrences(tiles, tile) <= u32::MAX);
        }
        requests_count(atlas, front);
        let before = atlas.request_all(front);
        let last = tiles.last();
        if atlas.existing.contains(last) {
            assert(users(before, last) == users(atlas, last) + occurrences(front, last));
            assert(users(atlas, last) + occurrences(tiles, last) <= u32::MAX);
            if !before.tiles.contains_key(last) {
                slots_are_unused_or_in_use(before);
                let used = in_use(before);
                assert(used.subset_of(all.remove(last))) by {
                    assert forall|tile: TileCoordinate| used.contains(tile) implies all.remove(
                        last,
                    ).contains(tile) by {
                        assert(before.tiles.contains_key(tile));
                        assert(before.existing.contains(tile)) by {
                            reveal(AtlasView::wf);
                        }
                        assert(users(before, tile) == users(atlas, tile) + occurrences(front, tile));
                    }
                }
                assert(all.contains(last));
                vstd::set_lib::lemma_len_subset(used, all.remove(last));
            }
        }
        assert(before.can_request(last));
        request_keeps_wf(before, last);
        assert forall|tile: TileCoordinate| atlas.existing.contains(tile) implies #[trigger] users(
            atlas.request_all(tiles),
            tile,
        ) == users(atlas, tile) + occurrences(tiles, tile) by {
            request_counts(before, last, tile);
            assert(users(before, tile) == users(atlas, tile) + occurrences(front, tile));
        }
    }
}

/// Whether the atlas knows the users of every tile: the given tile tree, and the given number of
/// others.
pub open spec fn in_step(
    atlas: AtlasView,
    tree: TreeView,
    others: spec_fn(TileCoordinate) -> nat,
) -> bool {
    forall|tile: TileCoordinate|
        atlas.existing.contains(tile) ==> #[trigger] users(atlas, tile) == others(tile) + demanded(
            tree,
            tile,
        )
}

/// The tiles of the terrain that the views want: the given tile tree, and others.
pub open spec fn wanted(
    atlas: AtlasView,
    tree: TreeView,
    others: spec_fn(TileCoordinate) -> nat,
) -> Set<TileCoordinate> {
    Set::new(
        |tile: TileCoordinate|
            atlas.existing.contains(tile) && others(tile) + demanded(tree, tile) > 0,
    )
}

/// An atlas that knows the users of its tiles can take over every move of a view, if it has a slot
/// for each tile that is wanted afterwards; it knows the users of its tiles again then. Neither does
/// it run out of slots, nor is a tile released that was not requested.
pub proof fn atlas_keeps_in_step(
    atlas: AtlasView,
    tree: TreeView,
    layers: Seq<LayerDemand>,
    others: spec_fn(TileCoordinate) -> nat,
)
    requires
        atlas.wf(),
        tree.wf(),
        tree.released.len() == 0,
        tree.requested.len() == 0,
        tree.accepts(layers),
        separate(tree, layers),
        in_step(atlas, tree, others),
        forall|tile: TileCoordinate| #[trigger] others(tile) < u32::MAX,
        wanted(atlas, tree.update(layers), others).finite(),
        wanted(atlas, tree.update(layers), others).len() <= atlas.size,
    ensures
        ({
            let moved = tree.update(layers);
            let after = atlas.update(moved.released, moved.requested);
            &&& atlas.can_update(moved.released, moved.requested)
            &&& after.wf()
            &&& in_step(after, moved.reported(), others)
        }),
{
    let moved = tree.update(layers);
    update_reports_the_change(tree, layers);
    assert forall|tile: TileCoordinate| atlas.existing.contains(tile) implies #[trigger]
        occurrences(moved.released, tile) <= users(atlas, tile) by {
        assert(users(atlas, tile) == others(tile) + demanded(tree, tile));
    }
    releases_count(atlas, moved.released);
    let freed = atlas.release_all(moved.released);
    assert forall|tile: TileCoordinate| atlas.existing.contains(tile) implies users(freed, tile)
        + #[trigger] occurrences(moved.requested, tile) == others(tile) + demanded(moved, tile) by {
        assert(users(atlas, tile) == others(tile) + demanded(tree, tile));
        assert(users(freed, tile) == users(atlas, tile) - occurrences(moved.released, tile));
    }
    assert(needed(freed, moved.requested) =~= wanted(atlas, moved, others)) by {
        assert forall|tile: TileCoordinate| needed(freed, moved.requested).contains(tile)
            <==> wanted(atlas, moved, others).contains(tile) by {
            if atlas.existing.contains(tile) {
                assert(users(freed, tile) + occurrences(moved.requested, tile) == others(tile)
                    + demanded(moved, tile));
            }
        }
    }
    requests_count(freed, moved.requested);
    let after = freed.request_all(moved.requested);
    assert forall|tile: TileCoordinate| after.existing.contains(tile) implies #[trigger] users(
        after,
        tile,
    ) == others(tile) + demanded(moved.reported(), tile) by {
        assert(users(freed, tile) + occurrences(moved.requested, tile) == others(tile) + demanded(
            moved,
            tile,
        ));
        assert(moved.reported().demand().contains(tile) == moved.demand().contains(tile));
    }
}

} // verus!
