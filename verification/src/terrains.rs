//! Sets of terrains.

use vstd::prelude::*;
use bevy::platform::collections::HashSet;
use crate::collections::{collect_terrain_set, set_has_terrain, terrain_set};
use crate::tile_atlas::{TerrainTileDropped, TerrainTileReady};

verus! {

/// A set of terrains.
pub struct Terrains {
    terrains: HashSet<u64>,
}

impl View for Terrains {
    type V = Set<u64>;

    closed spec fn view(&self) -> Set<u64> {
        terrain_set(self.terrains)
    }
}

/// The terrains that reported a tile as ready or dropped.
pub open spec fn reporting(
    ready: Seq<TerrainTileReady>,
    dropped: Seq<TerrainTileDropped>,
) -> Seq<u64> {
    ready.map_values(|message: TerrainTileReady| message.terrain) + dropped.map_values(
        |message: TerrainTileDropped| message.terrain,
    )
}

/// The terrains that are not in a set.
pub open spec fn gone_terrains(present: Set<u64>, terrains: Seq<u64>) -> Seq<u64> {
    terrains.filter(|terrain: u64| !present.contains(terrain))
}

/// The views of terrains that are not in a set, each given with its terrain.
pub open spec fn gone_views(present: Set<u64>, views: Seq<(u64, u64)>) -> Seq<(u64, u64)> {
    views.filter(|view: (u64, u64)| !present.contains(view.0))
}

impl Terrains {
    /// The set of the given terrains.
    pub fn collect(terrains: &Vec<u64>) -> (set: Self)
        ensures
            set@ == terrains@.to_set(),
    {
        Terrains { terrains: collect_terrain_set(terrains) }
    }

    /// The terrains that reported a tile as ready or dropped. For a tile tree whose tiles have not
    /// changed, the best tiles can have changed only on these.
    pub fn changed(ready: &Vec<TerrainTileReady>, dropped: &Vec<TerrainTileDropped>) -> (set: Self)
        ensures
            set@ == reporting(ready@, dropped@).to_set(),
            forall|i: int| 0 <= i < ready@.len() ==> set@.contains((#[trigger] ready@[i]).terrain),
            forall|i: int|
                0 <= i < dropped@.len() ==> set@.contains((#[trigger] dropped@[i]).terrain),
    {
        let ghost all = reporting(ready@, dropped@);
        let mut terrains: Vec<u64> = Vec::new();
        let mut i: usize = 0;
        while i < ready.len()
            invariant
                i <= ready@.len(),
                terrains@ == all.take(i as int),
                all == reporting(ready@, dropped@),
            decreases ready@.len() - i,
        {
            terrains.push(ready[i].terrain);
            assert(all.take(i + 1) =~= all.take(i as int).push(all[i as int]));
            i += 1;
        }
        let mut i: usize = 0;
        while i < dropped.len()
            invariant
                i <= dropped@.len(),
                terrains@ == all.take(ready@.len() + i),
                all == reporting(ready@, dropped@),
            decreases dropped@.len() - i,
        {
            let ghost at = ready@.len() + i;
            terrains.push(dropped[i].terrain);
            assert(all.take(at + 1) =~= all.take(at as int).push(all[at as int]));
            i += 1;
        }
        assert(terrains@ =~= all);
        proof {
            assert forall|i: int| 0 <= i < ready@.len() implies all.contains(
                (#[trigger] ready@[i]).terrain,
            ) by {
                assert(all[i] == ready@[i].terrain);
            }
            assert forall|i: int| 0 <= i < dropped@.len() implies all.contains(
                (#[trigger] dropped@[i]).terrain,
            ) by {
                assert(all[ready@.len() + i] == dropped@[i].terrain);
            }
        }
        Terrains::collect(&terrains)
    }

    /// Whether the terrain is in the set.
    pub fn contains(&self, terrain: u64) -> (has: bool)
        ensures
            has == self@.contains(terrain),
    {
        set_has_terrain(&self.terrains, terrain)
    }

    /// The terrains that are not in the set: the state that is kept for them has to be dropped.
    pub fn despawned_terrains(&self, terrains: &Vec<u64>) -> (despawned: Vec<u64>)
        ensures
            despawned@ == gone_terrains(self@, terrains@),
            despawned@ == terrains@.filter(|terrain: u64| !self@.contains(terrain)),
    {
        let ghost gone = |terrain: u64| !self@.contains(terrain);
        let mut despawned: Vec<u64> = Vec::new();
        let mut i: usize = 0;
        assert(terrains@.take(0).filter(gone) =~= Seq::<u64>::empty()) by {
            reveal(Seq::filter);
        }
        while i < terrains.len()
            invariant
                i <= terrains@.len(),
                gone == (|terrain: u64| !self@.contains(terrain)),
                despawned@ == terrains@.take(i as int).filter(gone),
            decreases terrains@.len() - i,
        {
            if !self.contains(terrains[i]) {
                despawned.push(terrains[i]);
            }
            proof {
                reveal(Seq::filter);
                assert(terrains@.take(i + 1).drop_last() =~= terrains@.take(i as int));
            }
            i += 1;
        }
        assert(terrains@.take(i as int) =~= terrains@);
        despawned
    }

    /// The views of terrains that are not in the set, each given with its terrain: the state that is
    /// kept for them has to be dropped, else it would outlive its terrain.
    pub fn despawned_views(&self, views: &Vec<(u64, u64)>) -> (despawned: Vec<(u64, u64)>)
        ensures
            despawned@ == gone_views(self@, views@),
            despawned@ == views@.filter(|view: (u64, u64)| !self@.contains(view.0)),
    {
        let ghost gone = |view: (u64, u64)| !self@.contains(view.0);
        let mut despawned: Vec<(u64, u64)> = Vec::new();
        let mut i: usize = 0;
        assert(views@.take(0).filter(gone) =~= Seq::<(u64, u64)>::empty()) by {
            reveal(Seq::filter);
        }
        while i < views.len()
            invariant
                i <= views@.len(),
                gone == (|view: (u64, u64)| !self@.contains(view.0)),
                despawned@ == views@.take(i as int).filter(gone),
            decreases views@.len() - i,
        {
            if !self.contains(views[i].0) {
                despawned.push(views[i]);
            }
            proof {
                reveal(Seq::filter);
                assert(views@.take(i + 1).drop_last() =~= views@.take(i as int));
            }
            i += 1;
        }
        assert(views@.take(i as int) =~= views@);
        despawned
    }
}

/// A terrain is among those that reported exactly if a message about one of its tiles is there.
pub proof fn terrains_report_by_their_messages(
    ready: Seq<TerrainTileReady>,
    dropped: Seq<TerrainTileDropped>,
    terrain: u64,
)
    ensures
        reporting(ready, dropped).to_set().contains(terrain) <==> (exists|i: int|
            0 <= i < ready.len() && (#[trigger] ready[i]).terrain == terrain) || (exists|i: int|
            0 <= i < dropped.len() && (#[trigger] dropped[i]).terrain == terrain),
{
    let all = reporting(ready, dropped);
    if all.contains(terrain) {
        let i = choose|i: int| 0 <= i < all.len() && all[i] == terrain;
        if i < ready.len() {
            assert(ready[i].terrain == terrain);
        } else {
            assert(dropped[i - ready.len()].terrain == terrain);
        }
    }
    if exists|i: int| 0 <= i < ready.len() && (#[trigger] ready[i]).terrain == terrain {
        let i = choose|i: int| 0 <= i < ready.len() && (#[trigger] ready[i]).terrain == terrain;
        assert(all[i] == terrain);
    }
    if exists|i: int| 0 <= i < dropped.len() && (#[trigger] dropped[i]).terrain == terrain {
        let i = choose|i: int| 0 <= i < dropped.len() && (#[trigger] dropped[i]).terrain == terrain;
        assert(all[ready.len() + i] == terrain);
    }
}

/// One more terrain, or one more view, is among the despawned ones, behind the others, exactly if its
/// terrain is not in the set.
pub proof fn absent_terrains_are_despawned(
    present: Set<u64>,
    terrains: Seq<u64>,
    views: Seq<(u64, u64)>,
    terrain: u64,
    view: u64,
)
    ensures
        gone_terrains(present, Seq::empty()).len() == 0,
        gone_views(present, Seq::empty()).len() == 0,
        present.contains(terrain) ==> gone_terrains(present, terrains.push(terrain))
            == gone_terrains(present, terrains),
        !present.contains(terrain) ==> gone_terrains(present, terrains.push(terrain))
            == gone_terrains(present, terrains).push(terrain),
        present.contains(terrain) ==> gone_views(present, views.push((terrain, view)))
            == gone_views(present, views),
        !present.contains(terrain) ==> gone_views(present, views.push((terrain, view)))
            == gone_views(present, views).push((terrain, view)),
{
    reveal(Seq::filter);
    assert(terrains.push(terrain).drop_last() =~= terrains);
    assert(views.push((terrain, view)).drop_last() =~= views);
}

} // verus!
