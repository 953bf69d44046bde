//! When the passes that draw a terrain run.
//!
//! A terrain is drawn into depth and color targets of its own, and merged into those of the view
//! afterwards: by the forward pass, or by the deferred pass on views that go through the G-buffer. A
//! third pass then writes the motion vectors of the terrain.

use vstd::prelude::*;
use crate::terrain_material::{
    def_if, renders_deferred, terrain_renders_deferred, texts, OpaqueRendererMethod,
};

verus! {

/// The key by which the terrains of a view are sorted, smaller keys first.
pub open spec fn sort_place(order: u32) -> int {
    u32::MAX - order
}

/// The key by which the terrains of a view are sorted before they are drawn.
pub fn sort_key(order: u32) -> (key: u32)
    ensures
        key == sort_place(order),
        key == u32::MAX - order,
{
    u32::MAX - order
}

/// Terrains with a higher priority are drawn first.
pub proof fn higher_orders_come_first(a: u32, b: u32)
    ensures
        u32::MAX - a < u32::MAX - b <==> a > b,
        sort_place(a) < sort_place(b) <==> a > b,
        0 <= sort_place(a) <= u32::MAX,
{
}

/// A camera, and whether it is active.
#[derive(Clone, Copy, Debug, PartialEq, Eq, Structural)]
pub struct CameraState {
    pub camera: u64,
    pub is_active: bool,
}

/// The cameras that get a terrain phase.
pub open spec fn active_cameras(cameras: Seq<CameraState>) -> Seq<u64> {
    cameras.filter(|state: CameraState| state.is_active).map_values(
        |state: CameraState| state.camera,
    )
}

/// One more camera gets a terrain phase, behind the others, exactly if it is active.
pub proof fn active_cameras_get_a_phase(cameras: Seq<CameraState>, state: CameraState)
    ensures
        active_cameras(Seq::empty()).len() == 0,
        state.is_active ==> active_cameras(cameras.push(state)) == active_cameras(cameras).push(
            state.camera,
        ),
        !state.is_active ==> active_cameras(cameras.push(state)) == active_cameras(cameras),
{
    reveal(Seq::filter);
    assert(cameras.push(state).drop_last() =~= cameras);
    let keep = |state: CameraState| state.is_active;
    let name = |state: CameraState| state.camera;
    if state.is_active {
        assert(cameras.push(state).filter(keep) =~= cameras.filter(keep).push(state));
        assert(cameras.filter(keep).push(state).map_values(name) =~= cameras.filter(keep).map_values(
            name,
        ).push(state.camera));
    }
}

/// The cameras that get a terrain phase: those that are active.
pub fn extract_terrain_phases(cameras: &Vec<CameraState>) -> (active: Vec<u64>)
    ensures
        active@ == active_cameras(cameras@),
        active@ == cameras@.filter(|state: CameraState| state.is_active).map_values(
            |state: CameraState| state.camera,
        ),
{
    let ghost keep = |state: CameraState| state.is_active;
    let ghost name = |state: CameraState| state.camera;
    let mut active: Vec<u64> = Vec::new();
    let mut i: usize = 0;
    assert(cameras@.take(0).filter(keep).map_values(name) =~= Seq::<u64>::empty()) by {
        reveal(Seq::filter);
    }
    while i < cameras.len()
        invariant
            i <= cameras@.len(),
            keep == (|state: CameraState| state.is_active),
            name == (|state: CameraState| state.camera),
            active@ == cameras@.take(i as int).filter(keep).map_values(name),
        decreases cameras@.len() - i,
    {
        let ghost kept = cameras@.take(i as int).filter(keep);
        if cameras[i].is_active {
            active.push(cameras[i].camera);
        }
        proof {
            assert(cameras@.take(i + 1).drop_last() =~= cameras@.take(i as int));
            assert(cameras@.take(i + 1).filter(keep) == if cameras@[i as int].is_active {
                kept.push(cameras@[i as int])
            } else {
                kept
            }) by {
                reveal(Seq::filter);
            }
            assert(kept.push(cameras@[i as int]).map_values(name) =~= kept.map_values(name).push(
                cameras@[i as int].camera,
            ));
        }
        i += 1;
    }
    assert(cameras@.take(i as int) =~= cameras@);
    active
}

/// What a view brings to the targets of its terrains.
#[derive(Clone, Copy, Debug, PartialEq, Eq)]
pub struct TargetView {
    /// The size of the target of the camera in pixels, if it has one.
    pub physical_target_size: Option<(u32, u32)>,
    pub samples: u32,
    pub has_deferred_prepass: bool,
}

/// The targets of the terrains of a view.
#[derive(Clone, Copy, Debug, PartialEq, Eq, Structural)]
pub struct TerrainTargets {
    pub width: u32,
    pub height: u32,
    pub samples: u32,
    /// Whether the depth is multisampled. The pass that copies it has to match.
    pub multisampled: bool,
    /// Whether the view gets targets for the G-buffer, too.
    pub deferred: bool,
}

/// What becomes of the targets of a view.
#[derive(Clone, Copy, Debug, PartialEq, Eq, Structural)]
pub enum TargetStep {
    /// There is no terrain: the targets are removed, and with them all that keeps them alive.
    Remove,
    /// The camera has no target: nothing changes.
    Keep,
    /// The targets are provided.
    Provide(TerrainTargets),
}

/// What becomes of the targets of a view.
pub open spec fn target_step(
    has_terrains: bool,
    view: TargetView,
    method: Option<OpaqueRendererMethod>,
) -> TargetStep {
    if !has_terrains {
        TargetStep::Remove
    } else {
        match view.physical_target_size {
            None => TargetStep::Keep,
            Some(size) => TargetStep::Provide(
                TerrainTargets {
                    width: size.0,
                    height: size.1,
                    samples: view.samples,
                    multisampled: view.samples > 1,
                    deferred: renders_deferred(view.has_deferred_prepass, method) && view.samples
                        == 1,
                },
            ),
        }
    }
}

/// What becomes of the targets of the views.
pub open spec fn target_steps(
    has_terrains: bool,
    views: Seq<TargetView>,
    method: Option<OpaqueRendererMethod>,
) -> Seq<TargetStep> {
    views.map_values(|view: TargetView| target_step(has_terrains, view, method))
}

/// Decides what becomes of the targets of the views.
pub fn prepare_terrain_depth_textures(
    has_terrains: bool,
    views: &Vec<TargetView>,
    method: Option<OpaqueRendererMethod>,
) -> (steps: Vec<TargetStep>)
    ensures
        steps@ == target_steps(has_terrains, views@, method),
        steps@ == views@.map_values(|view: TargetView| target_step(has_terrains, view, method)),
{
    let mut steps: Vec<TargetStep> = Vec::new();
    let mut i: usize = 0;
    while i < views.len()
        invariant
            i <= views@.len(),
            steps@ == views@.take(i as int).map_values(
                |view: TargetView| target_step(has_terrains, view, method),
            ),
        decreases views@.len() - i,
    {
        let view = views[i];
        let step = if !has_terrains {
            TargetStep::Remove
        } else {
            match view.physical_target_size {
                None => TargetStep::Keep,
                Some((width, height)) => TargetStep::Provide(
                    TerrainTargets {
                        width,
                        height,
                        samples: view.samples,
                        multisampled: view.samples > 1,
                        deferred: terrain_renders_deferred(view.has_deferred_prepass, method)
                            && view.samples == 1,
                    },
                ),
            }
        };
        steps.push(step);
        i += 1;
        assert(steps@ =~= views@.take(i as int).map_values(
            |view: TargetView| target_step(has_terrains, view, method),
        ));
    }
    assert(views@.take(i as int) =~= views@);
    steps
}

/// The shader definitions of the pass that copies the depth of the terrain.
pub open spec fn depth_copy_defs(samples: u32) -> Seq<Seq<char>> {
    def_if(samples > 1, "MULTISAMPLED"@)
}

/// The pass that copies the depth knows of several samples exactly where there are several, and of
/// nothing else.
pub proof fn depth_copies_know_their_samples(samples: u32)
    ensures
        samples > 1 ==> depth_copy_defs(samples) == seq!["MULTISAMPLED"@],
        samples <= 1 ==> depth_copy_defs(samples).len() == 0,
{
}

/// The shader definitions of the pass that copies the depth of the terrain.
pub fn depth_copy_shader_defs(samples: u32) -> (defs: Vec<&'static str>)
    ensures
        texts(defs@) == depth_copy_defs(samples),
        texts(defs@) == def_if(samples > 1, "MULTISAMPLED"@),
{
    let mut defs: Vec<&'static str> = Vec::new();
    if samples > 1 {
        defs.push("MULTISAMPLED");
    }
    assert(texts(defs@) =~= def_if(samples > 1, "MULTISAMPLED"@));
    defs
}

/// What the passes of a view depend on. The view has a depth target for its terrains.
#[derive(Clone, Copy, Debug, PartialEq, Eq, Structural)]
pub struct PassView {
    pub has_deferred_prepass: bool,
    /// Whether the view has targets for the G-buffer of its terrains.
    pub has_deferred_targets: bool,
    /// The number of terrains in the phase of the view, if it has one.
    pub item_count: Option<usize>,
    /// Whether the pipeline that copies the depth is there.
    pub copy_pipeline_ready: bool,
    /// Whether the pipeline that merges the G-buffers is there.
    pub composite_pipeline_ready: bool,
    /// Whether the pipeline that writes motion vectors is there.
    pub motion_pipeline_ready: bool,
    /// Whether the view has both attachments of the G-buffer.
    pub has_gbuffer: bool,
    pub has_motion_vectors: bool,
    pub has_prepass_depth: bool,
}

impl PassView {
    /// Whether there is a terrain to draw.
    pub open spec fn has_items(self) -> bool {
        self.item_count matches Some(count) && count > 0
    }

    /// Whether the forward pass draws the terrains of the view.
    pub open spec fn draws_forward(self, method: Option<OpaqueRendererMethod>) -> bool {
        &&& !renders_deferred(self.has_deferred_prepass, method)
        &&& self.copy_pipeline_ready
        &&& self.has_items()
    }

    /// Whether the deferred pass draws the terrains of the view.
    pub open spec fn draws_deferred(self, method: Option<OpaqueRendererMethod>) -> bool {
        &&& renders_deferred(self.has_deferred_prepass, method)
        &&& self.has_deferred_targets
        &&& self.composite_pipeline_ready
        &&& self.has_items()
        &&& self.has_gbuffer
    }

    /// Whether the motion pass finds terrains drawn.
    pub open spec fn drew_terrain(self, method: Option<OpaqueRendererMethod>) -> bool {
        &&& self.has_items()
        &&& if renders_deferred(self.has_deferred_prepass, method) {
            self.has_deferred_targets && self.composite_pipeline_ready
        } else {
            self.copy_pipeline_ready
        }
    }

    /// Whether there is a terrain to draw.
    fn any_items(&self) -> (any: bool)
        ensures
            any == self.has_items(),
    {
        match self.item_count {
            Some(count) => count > 0,
            None => false,
        }
    }
}

/// Whether the forward pass draws the terrains of a view.
pub fn terrain_pass(view: &PassView, method: Option<OpaqueRendererMethod>) -> (draws: bool)
    ensures
        draws == view.draws_forward(method),
{
    !terrain_renders_deferred(view.has_deferred_prepass, method) && view.copy_pipeline_ready
        && view.any_items()
}

/// Whether the deferred pass draws the terrains of a view.
pub fn terrain_deferred_pass(view: &PassView, method: Option<OpaqueRendererMethod>) -> (draws: bool)
    ensures
        draws == view.draws_deferred(method),
{
    terrain_renders_deferred(view.has_deferred_prepass, method) && view.has_deferred_targets
        && view.composite_pipeline_ready && view.any_items() && view.has_gbuffer
}

/// What the motion pass does on a view.
#[derive(Clone, Copy, Debug, PartialEq, Eq, Structural)]
pub struct MotionSteps {
    /// Whether the final depth is copied to the depth of the prepass, which was filled before the
    /// terrain was drawn.
    pub restage_depth: bool,
    /// Whether the motion vectors of the terrain are written.
    pub write_motion: bool,
}

/// What the motion pass does on a view.
pub open spec fn motion_steps(view: PassView, method: Option<OpaqueRendererMethod>) -> MotionSteps {
    MotionSteps {
        restage_depth: view.drew_terrain(method) && view.has_motion_vectors
            && view.has_prepass_depth,
        write_motion: view.drew_terrain(method) && view.has_motion_vectors
            && view.motion_pipeline_ready,
    }
}

/// What the motion pass does on a view. It only runs where a pass has drawn the terrains, else it
/// would read the depth of an earlier frame.
pub fn terrain_motion_pass(view: &PassView, method: Option<OpaqueRendererMethod>) -> (steps:
    MotionSteps)
    ensures
        steps == motion_steps(*view, method),
        steps == (MotionSteps {
            restage_depth: view.drew_terrain(method) && view.has_motion_vectors
                && view.has_prepass_depth,
            write_motion: view.drew_terrain(method) && view.has_motion_vectors
                && view.motion_pipeline_ready,
        }),
{
    let copy_pipeline_ready = if terrain_renders_deferred(view.has_deferred_prepass, method) {
        view.has_deferred_targets && view.composite_pipeline_ready
    } else {
        view.copy_pipeline_ready
    };
    if !(view.any_items() && copy_pipeline_ready) || !view.has_motion_vectors {
        return MotionSteps { restage_depth: false, write_motion: false };
    }
    MotionSteps { restage_depth: view.has_prepass_depth, write_motion: view.motion_pipeline_ready }
}

/// What becomes of the bind group of the motion pass of a view.
#[derive(Clone, Copy, Debug, PartialEq, Eq, Structural)]
pub enum MotionBindGroupStep {
    Remove,
    Keep,
    Create,
}

/// What becomes of the bind group of the motion pass of a view.
pub open spec fn motion_group_step(
    multisampled: bool,
    has_view_uniforms: bool,
    has_previous_view_uniforms: bool,
) -> MotionBindGroupStep {
    if multisampled {
        MotionBindGroupStep::Remove
    } else if has_view_uniforms && has_previous_view_uniforms {
        MotionBindGroupStep::Create
    } else {
        MotionBindGroupStep::Keep
    }
}

/// The motion pass has a bind group exactly on views that are not multisampled and whose uniforms are
/// there; a multisampled view never has one.
pub proof fn motion_groups_need_single_samples(
    multisampled: bool,
    has_view_uniforms: bool,
    has_previous_view_uniforms: bool,
)
    ensures
        ({
            let step = motion_group_step(
                multisampled,
                has_view_uniforms,
                has_previous_view_uniforms,
            );
            &&& step is Remove <==> multisampled
            &&& step is Create <==> !multisampled && has_view_uniforms && has_previous_view_uniforms
        }),
{
}

/// What becomes of the bind group of the motion pass of a view: it does not exist for multisampled
/// views, and is created once the uniforms of the view are there.
pub fn prepare_terrain_motion_bind_group(
    multisampled: bool,
    has_view_uniforms: bool,
    has_previous_view_uniforms: bool,
) -> (step: MotionBindGroupStep)
    ensures
        step == motion_group_step(multisampled, has_view_uniforms, has_previous_view_uniforms),
        step == if multisampled {
            MotionBindGroupStep::Remove
        } else if has_view_uniforms && has_previous_view_uniforms {
            MotionBindGroupStep::Create
        } else {
            MotionBindGroupStep::Keep
        },
{
    if multisampled {
        MotionBindGroupStep::Remove
    } else if has_view_uniforms && has_previous_view_uniforms {
        MotionBindGroupStep::Create
    } else {
        MotionBindGroupStep::Keep
    }
}

/// The terrains of a view are never drawn by both passes.
pub proof fn terrains_are_drawn_once(view: PassView, method: Option<OpaqueRendererMethod>)
    ensures
        !(view.draws_forward(method) && view.draws_deferred(method)),
{
}

/// The motion pass finds terrains drawn exactly where one of the passes has drawn them. A view with a
/// deferred prepass has the attachments of the G-buffer.
pub proof fn motion_follows_the_drawing(view: PassView, method: Option<OpaqueRendererMethod>)
    requires
        view.has_deferred_prepass ==> view.has_gbuffer,
    ensures
        view.drew_terrain(method) <==> view.draws_forward(method) || view.draws_deferred(method),
{
}

/// A view gets targets for the G-buffer only where its terrains go through it, and never multisampled
/// ones.
pub proof fn gbuffer_targets_are_used(
    has_terrains: bool,
    view: TargetView,
    method: Option<OpaqueRendererMethod>,
    targets: TerrainTargets,
)
    requires
        target_step(has_terrains, view, method) == TargetStep::Provide(targets),
    ensures
        targets.deferred ==> renders_deferred(view.has_deferred_prepass, method)
            && !targets.multisampled && targets.samples == 1,
        has_terrains,
{
}

/// A view gets targets exactly if there is a terrain and its camera has a target. They have its size
/// and its samples; the G-buffer is among them exactly if the view has a deferred prepass, opaque
/// materials are deferred, and there is one sample. Without terrains all targets are removed.
pub proof fn targets_fit_their_view(
    has_terrains: bool,
    view: TargetView,
    method: Option<OpaqueRendererMethod>,
)
    ensures
        ({
            let step = target_step(has_terrains, view, method);
            &&& step is Remove <==> !has_terrains
            &&& step is Provide <==> has_terrains && view.physical_target_size is Some
            &&& step is Provide ==> {
                let targets = step->Provide_0;
                &&& (targets.width, targets.height) == view.physical_target_size->Some_0
                &&& targets.samples == view.samples
                &&& targets.multisampled <==> view.samples > 1
                &&& targets.deferred <==> view.has_deferred_prepass && method == Some(
                    OpaqueRendererMethod::Deferred,
                ) && view.samples == 1
            }
        }),
{
}

/// The terrains of a view are drawn by the deferred pass where the view has a deferred prepass and
/// opaque materials are deferred, and by the forward pass everywhere else, as soon as there is a
/// terrain and all that the pass needs is there.
pub proof fn each_view_has_its_pass(view: PassView, method: Option<OpaqueRendererMethod>)
    ensures
        ({
            let deferred = view.has_deferred_prepass && method == Some(
                OpaqueRendererMethod::Deferred,
            );
            let any = view.item_count is Some && view.item_count->Some_0 > 0;
            &&& deferred ==> !view.draws_forward(method)
            &&& !deferred ==> !view.draws_deferred(method)
            &&& !any ==> !view.draws_forward(method) && !view.draws_deferred(method)
            &&& any && !deferred ==> (view.draws_forward(method) <==> view.copy_pipeline_ready)
            &&& any && deferred ==> (view.draws_deferred(method) <==> view.has_deferred_targets
                && view.composite_pipeline_ready && view.has_gbuffer)
        }),
{
}

/// The motion pass touches a view only where its terrains were drawn and it has motion vectors. It then
/// writes the motion of the terrain if its pipeline is there, and restores the depth of the prepass if
/// there is one.
pub proof fn motion_needs_drawn_terrains(view: PassView, method: Option<OpaqueRendererMethod>)
    requires
        view.has_deferred_prepass ==> view.has_gbuffer,
    ensures
        ({
            let drawn = view.draws_forward(method) || view.draws_deferred(method);
            let steps = motion_steps(view, method);
            &&& steps.write_motion <==> drawn && view.has_motion_vectors
                && view.motion_pipeline_ready
            &&& steps.restage_depth <==> drawn && view.has_motion_vectors && view.has_prepass_depth
        }),
{
    motion_follows_the_drawing(view, method);
}

/// The views are decided upon one by one, in order.
pub proof fn views_are_decided_one_by_one(
    has_terrains: bool,
    views: Seq<TargetView>,
    method: Option<OpaqueRendererMethod>,
    i: int,
)
    ensures
        target_steps(has_terrains, views, method).len() == views.len(),
        0 <= i < views.len() ==> target_steps(has_terrains, views, method)[i] == target_step(
            has_terrains,
            views[i],
            method,
        ),
{
}

/// The motion pass does not look at the G-buffer.
pub proof fn motion_ignores_the_gbuffer(
    view: PassView,
    method: Option<OpaqueRendererMethod>,
    has_gbuffer: bool,
)
    ensures
        motion_steps(PassView { has_gbuffer, ..view }, method) == motion_steps(view, method),
{
}

} // verus!
