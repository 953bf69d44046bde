//! The buffers and bind groups of the view of a terrain.

use vstd::prelude::*;
use crate::terrain_material::{
    uses_debug_layout, view_bits, view_flags_are_independent, QueueSettings,
    QueuedView, TerrainPipelineFlags,
};

verus! {

/// The number of vertices of a row of a tile: two per column, and one more column at each side.
pub open spec fn row_vertices(grid_size: u32) -> int {
    2 * (grid_size + 2)
}

/// The number of vertices of a tile.
pub open spec fn tile_vertices(grid_size: u32) -> int {
    2 * grid_size * (grid_size + 2)
}

/// The number of vertices of a row of a tile.
pub fn vertices_per_row(grid_size: u32) -> (count: u32)
    requires
        row_vertices(grid_size) <= u32::MAX,
    ensures
        count == row_vertices(grid_size),
{
    2 * (grid_size + 2)
}

/// The number of vertices of a tile.
pub fn vertices_per_tile(grid_size: u32) -> (count: u32)
    requires
        row_vertices(grid_size) <= u32::MAX,
        tile_vertices(grid_size) <= u32::MAX,
    ensures
        count == tile_vertices(grid_size),
{
    2 * grid_size * (grid_size + 2)
}

/// A tile has as many rows as its grid.
pub proof fn tiles_consist_of_rows(grid_size: u32)
    ensures
        tile_vertices(grid_size) == grid_size * row_vertices(grid_size),
{
    let g = grid_size as int;
    assert(2 * g * (g + 2) == g * (2 * (g + 2))) by (nonlinear_arith);
}

/// What becomes of a bind group.
#[derive(Clone, Copy, Debug, PartialEq, Eq, Structural)]
pub enum BindGroupStep {
    /// A buffer is missing: the bind group is dropped.
    Clear,
    /// The bind group is up to date.
    Keep,
    /// The bind group is created anew.
    Create,
}

/// Whether the debug layout is used: the tile tree is shown, and no camera has an atmosphere.
pub open spec fn shows_tile_tree(show_tile_tree: bool, atmospheres: Seq<bool>) -> bool {
    show_tile_tree && forall|i: int| 0 <= i < atmospheres.len() ==> !#[trigger] atmospheres[i]
}

/// Whether the debug layout is used, given whether the cameras have an atmosphere.
pub fn use_debug_layout(show_tile_tree: bool, atmospheres: &Vec<bool>) -> (used: bool)
    ensures
        used == shows_tile_tree(show_tile_tree, atmospheres@),
{
    let mut i: usize = 0;
    while i < atmospheres.len()
        invariant
            i <= atmospheres@.len(),
            forall|j: int| 0 <= j < i ==> !#[trigger] atmospheres@[j],
        decreases atmospheres@.len() - i,
    {
        if atmospheres[i] {
            return false;
        }
        i += 1;
    }
    show_tile_tree
}

/// The bind group and the pipeline of a terrain use the same layout on every view, if the cameras
/// agree on whether they have an atmosphere.
pub proof fn layouts_agree(
    settings: QueueSettings,
    view: QueuedView,
    is_spherical: bool,
    atmospheres: Seq<bool>,
)
    requires
        1 <= view.msaa_samples <= 64,
        atmospheres.len() > 0,
        forall|i: int|
            0 <= i < atmospheres.len() ==> #[trigger] atmospheres[i] == view.has_atmosphere,
    ensures
        uses_debug_layout(
            TerrainPipelineFlags { bits: view_bits(settings, view, is_spherical) },
        ) == shows_tile_tree(
            settings.debug is Some && settings.debug->Some_0.show_tile_tree,
            atmospheres,
        ),
{
    view_flags_are_independent(settings, view, is_spherical);
    assert(atmospheres[0] == view.has_atmosphere);
}

/// The bind group of the view of a terrain.
#[derive(Clone, Copy, Debug, PartialEq, Eq, Structural)]
pub struct TerrainViewBinding {
    /// The layout of the bind group, if there is one: whether it is the debug layout.
    pub debug_layout: Option<bool>,
}

impl TerrainViewBinding {
    /// What becomes of the bind group.
    pub open spec fn next_step(self, ready: bool, use_debug_layout: bool) -> BindGroupStep {
        if !ready {
            BindGroupStep::Clear
        } else if self.debug_layout == Some(use_debug_layout) {
            BindGroupStep::Keep
        } else {
            BindGroupStep::Create
        }
    }

    /// The bind group afterwards.
    pub open spec fn next(self, ready: bool, use_debug_layout: bool) -> TerrainViewBinding {
        TerrainViewBinding {
            debug_layout: if ready {
                Some(use_debug_layout)
            } else {
                None
            },
        }
    }

    /// Brings the bind group up to date, given whether its buffers are there.
    pub fn prepare_terrain_view(&mut self, ready: bool, use_debug_layout: bool) -> (step:
        BindGroupStep)
        ensures
            step == old(self).next_step(ready, use_debug_layout),
            *final(self) == old(self).next(ready, use_debug_layout),
            step == if !ready {
                BindGroupStep::Clear
            } else if old(self).debug_layout == Some(use_debug_layout) {
                BindGroupStep::Keep
            } else {
                BindGroupStep::Create
            },
            final(self).debug_layout == if ready {
                Some(use_debug_layout)
            } else {
                None
            },
    {
        if !ready {
            self.debug_layout = None;
            return BindGroupStep::Clear;
        }
        if let Some(debug_layout) = self.debug_layout {
            if debug_layout == use_debug_layout {
                return BindGroupStep::Keep;
            }
        }
        self.debug_layout = Some(use_debug_layout);
        BindGroupStep::Create
    }
}

/// The numbers of the buffers of the prepass of a view: its uniform, its approximate height and its
/// tile tree.
#[derive(Clone, Copy, Debug, PartialEq, Eq, Structural)]
pub struct PrepassBuffers {
    pub terrain_view: u32,
    pub approximate_height: u32,
    pub tile_tree: u32,
}

/// The bind group of the prepass of a view. Its buffers can be allocated anew.
#[derive(Clone, Copy, Debug, PartialEq, Eq, Structural)]
pub struct PrepassBinding {
    /// The buffers of the bind group, if there is one.
    pub buffers: Option<PrepassBuffers>,
}

impl PrepassBinding {
    /// What becomes of the bind group.
    pub open spec fn next_step(self, buffers: Option<PrepassBuffers>) -> BindGroupStep {
        match buffers {
            None => BindGroupStep::Clear,
            Some(_) => if self.buffers == buffers {
                BindGroupStep::Keep
            } else {
                BindGroupStep::Create
            },
        }
    }

    /// Brings the bind group up to date with the buffers, which may be missing.
    pub fn prepare_refine_tiles(&mut self, buffers: Option<PrepassBuffers>) -> (step: BindGroupStep)
        ensures
            step == old(self).next_step(buffers),
            *final(self) == (PrepassBinding { buffers }),
            step == match buffers {
                None => BindGroupStep::Clear,
                Some(_) => if old(self).buffers == buffers {
                    BindGroupStep::Keep
                } else {
                    BindGroupStep::Create
                },
            },
            final(self).buffers == buffers,
    {
        let Some(now) = buffers else {
            self.buffers = None;
            return BindGroupStep::Clear;
        };
        if let Some(before) = self.buffers {
            if before == now {
                return BindGroupStep::Keep;
            }
        }
        self.buffers = Some(now);
        BindGroupStep::Create
    }
}

/// A column of a grid adds two vertices to a row, and a row has two vertices at each side besides. A
/// tile is made of as many rows as its grid has.
pub proof fn columns_add_two_vertices(grid_size: u32)
    requires
        grid_size < u32::MAX,
    ensures
        row_vertices(0) == 4,
        row_vertices((grid_size + 1) as u32) == row_vertices(grid_size) + 2,
        tile_vertices(grid_size) == grid_size * row_vertices(grid_size),
{
    tiles_consist_of_rows(grid_size);
}

/// The debug layout is used exactly if the tile tree is shown and no camera has an atmosphere.
pub proof fn atmospheres_hide_the_tile_tree(show_tile_tree: bool, atmospheres: Seq<bool>)
    ensures
        shows_tile_tree(show_tile_tree, atmospheres) <==> show_tile_tree && !atmospheres.contains(
            true,
        ),
{
    if atmospheres.contains(true) {
        let i = choose|i: int| 0 <= i < atmospheres.len() && atmospheres[i] == true;
        assert(atmospheres[i]);
    }
}

/// After the bind group of a view was brought up to date it has the layout that is used, or is missing
/// where a buffer is. It is kept exactly if it already had that layout, so a second call never creates
/// it again.
pub proof fn view_groups_follow_the_layout(
    binding: TerrainViewBinding,
    ready: bool,
    debug: bool,
    other: bool,
)
    ensures
        ({
            let after = binding.next(ready, debug);
            let step = binding.next_step(ready, debug);
            &&& after.debug_layout is Some <==> ready
            &&& ready ==> after.debug_layout == Some(debug)
            &&& step is Clear <==> !ready
            &&& step is Keep <==> ready && binding == after
            &&& ready ==> after.next_step(ready, debug) is Keep
            &&& ready && other != debug ==> after.next_step(ready, other) is Create
            &&& !ready ==> after.next_step(true, debug) is Create
        }),
{
}

/// The bind group of the prepass is kept exactly if all of its buffers are the same as before; it is
/// created anew for other buffers and dropped without them.
pub proof fn prepass_groups_follow_the_buffers(
    binding: PrepassBinding,
    now: PrepassBuffers,
    before: PrepassBuffers,
)
    ensures
        binding.next_step(None) is Clear,
        (PrepassBinding { buffers: None }).next_step(Some(now)) is Create,
        (PrepassBinding { buffers: Some(before) }).next_step(Some(now)) is Keep
            <==> now.terrain_view == before.terrain_view && now.approximate_height
            == before.approximate_height && now.tile_tree == before.tile_tree,
        (PrepassBinding { buffers: Some(before) }).next_step(Some(now)) is Create
            <==> now.terrain_view != before.terrain_view || now.approximate_height
            != before.approximate_height || now.tile_tree != before.tile_tree,
{
}

} // verus!
