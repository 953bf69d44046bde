//! The choice of a render pipeline for a terrain on a view.

use vstd::prelude::*;

verus! {

/// What is shown of a terrain while it is debugged.
#[derive(Clone, Copy, Debug, PartialEq, Eq, Structural)]
pub struct DebugTerrain {
    pub wireframe: bool,
    pub show_data_lod: bool,
    pub show_geometry_lod: bool,
    pub show_tile_tree: bool,
    pub show_pixels: bool,
    pub show_uv: bool,
    pub show_normals: bool,
    pub morph: bool,
    pub blend: bool,
    pub tile_tree_lod: bool,
    pub lighting: bool,
    pub sample_grad: bool,
    pub high_precision: bool,
    pub test1: bool,
    pub test2: bool,
    pub test3: bool,
}

/// How the triangles of a terrain are drawn.
#[derive(Clone, Copy, Debug, PartialEq, Eq, Structural)]
pub enum PolygonMode {
    Fill,
    Line,
}

/// The features of a render pipeline, one bit each. The highest six bits hold the number of samples,
/// less one.
#[derive(Clone, Copy, Debug, PartialEq, Eq, Structural, Hash)]
pub struct TerrainPipelineFlags {
    pub bits: u32,
}

impl TerrainPipelineFlags {
    pub const NONE: u32 = 0;

    pub const SPHERICAL: u32 = 0x1;

    pub const WIREFRAME: u32 = 0x2;

    pub const SHOW_DATA_LOD: u32 = 0x4;

    pub const SHOW_GEOMETRY_LOD: u32 = 0x8;

    pub const SHOW_TILE_TREE: u32 = 0x10;

    pub const SHOW_PIXELS: u32 = 0x20;

    pub const SHOW_UV: u32 = 0x40;

    pub const SHOW_NORMALS: u32 = 0x80;

    pub const MORPH: u32 = 0x100;

    pub const BLEND: u32 = 0x200;

    pub const TILE_TREE_LOD: u32 = 0x400;

    pub const LIGHTING: u32 = 0x800;

    pub const SAMPLE_GRAD: u32 = 0x1000;

    pub const HIGH_PRECISION: u32 = 0x2000;

    pub const TEST1: u32 = 0x4000;

    pub const TEST2: u32 = 0x8000;

    pub const TEST3: u32 = 0x10000;

    pub const HDR: u32 = 0x20000;

    pub const ATMOSPHERE: u32 = 0x40000;

    pub const ENVIRONMENT_MAP: u32 = 0x80000;

    pub const TERRAIN_SHADOW: u32 = 0x100000;

    pub const DEFERRED: u32 = 0x200000;

    pub const MSAA_RESERVED_BITS: u32 = 0xfc000000;
}

/// The bits of a number of samples.
pub open spec fn sample_bits(msaa_samples: u32) -> u32 {
    (((msaa_samples - 1) as u32) & 0x3f) << 26
}

/// A flag, if it is on.
pub open spec fn flag_if(on: bool, flag: u32) -> u32 {
    if on {
        flag
    } else {
        0
    }
}

/// The flags of what is shown in place of the terrain.
pub open spec fn shown_bits(debug: DebugTerrain) -> u32 {
    flag_if(debug.wireframe, TerrainPipelineFlags::WIREFRAME)
        | flag_if(debug.show_data_lod, TerrainPipelineFlags::SHOW_DATA_LOD)
        | flag_if(debug.show_geometry_lod, TerrainPipelineFlags::SHOW_GEOMETRY_LOD)
        | flag_if(debug.show_tile_tree, TerrainPipelineFlags::SHOW_TILE_TREE)
        | flag_if(debug.show_pixels, TerrainPipelineFlags::SHOW_PIXELS)
        | flag_if(debug.show_uv, TerrainPipelineFlags::SHOW_UV)
        | flag_if(debug.show_normals, TerrainPipelineFlags::SHOW_NORMALS)
}

/// The flags of how the terrain is drawn.
pub open spec fn shading_bits(debug: DebugTerrain) -> u32 {
    flag_if(debug.morph, TerrainPipelineFlags::MORPH)
        | flag_if(debug.blend, TerrainPipelineFlags::BLEND)
        | flag_if(debug.tile_tree_lod, TerrainPipelineFlags::TILE_TREE_LOD)
        | flag_if(debug.lighting, TerrainPipelineFlags::LIGHTING)
        | flag_if(debug.sample_grad, TerrainPipelineFlags::SAMPLE_GRAD)
        | flag_if(debug.high_precision, TerrainPipelineFlags::HIGH_PRECISION)
}

/// The flags of experiments.
pub open spec fn test_bits(debug: DebugTerrain) -> u32 {
    flag_if(debug.test1, TerrainPipelineFlags::TEST1)
        | flag_if(debug.test2, TerrainPipelineFlags::TEST2)
        | flag_if(debug.test3, TerrainPipelineFlags::TEST3)
}

/// The flags of the debug settings.
pub open spec fn debug_bits(debug: DebugTerrain) -> u32 {
    shown_bits(debug) | shading_bits(debug) | test_bits(debug)
}

/// The shader definitions that flags stand for, in the order in which they are given to the shaders.
pub open spec fn def_table() -> Seq<(u32, Seq<char>)> {
    seq![
        (TerrainPipelineFlags::SPHERICAL, "SPHERICAL"@),
        (TerrainPipelineFlags::SHOW_DATA_LOD, "SHOW_DATA_LOD"@),
        (TerrainPipelineFlags::SHOW_GEOMETRY_LOD, "SHOW_GEOMETRY_LOD"@),
        (TerrainPipelineFlags::SHOW_TILE_TREE, "SHOW_TILE_TREE"@),
        (TerrainPipelineFlags::SHOW_PIXELS, "SHOW_PIXELS"@),
        (TerrainPipelineFlags::SHOW_UV, "SHOW_UV"@),
        (TerrainPipelineFlags::SHOW_NORMALS, "SHOW_NORMALS"@),
        (TerrainPipelineFlags::MORPH, "MORPH"@),
        (TerrainPipelineFlags::BLEND, "BLEND"@),
        (TerrainPipelineFlags::TILE_TREE_LOD, "TILE_TREE_LOD"@),
        (TerrainPipelineFlags::LIGHTING, "LIGHTING"@),
        (TerrainPipelineFlags::SAMPLE_GRAD, "SAMPLE_GRAD"@),
        (TerrainPipelineFlags::HIGH_PRECISION, "HIGH_PRECISION"@),
        (TerrainPipelineFlags::TEST1, "TEST1"@),
        (TerrainPipelineFlags::TEST2, "TEST2"@),
        (TerrainPipelineFlags::TEST3, "TEST3"@),
        (TerrainPipelineFlags::HDR, "HDR"@),
        (TerrainPipelineFlags::ATMOSPHERE, "ATMOSPHERE"@),
        (TerrainPipelineFlags::ENVIRONMENT_MAP, "ENVIRONMENT_MAP"@),
        (TerrainPipelineFlags::TERRAIN_SHADOW, "TERRAIN_SHADOW"@),
        (TerrainPipelineFlags::DEFERRED, "DEFERRED_PREPASS"@),
    ]
}

/// The views of texts.
pub open spec fn texts(strings: Seq<&str>) -> Seq<Seq<char>> {
    strings.map_values(|text: &str| text@)
}

/// The shader definitions of the first `count` rows of the table whose flag is among `bits`.
pub open spec fn defs_of(bits: u32, count: nat) -> Seq<Seq<char>>
    decreases count,
{
    if count == 0 {
        Seq::empty()
    } else {
        let row = def_table()[count - 1];
        let front = defs_of(bits, (count - 1) as nat);
        if bits & row.0 == row.0 {
            front.push(row.1)
        } else {
            front
        }
    }
}

/// The shader definitions that flags stand for.
fn shader_def_table() -> (table: Vec<(u32, &'static str)>)
    ensures
        table@.len() == def_table().len(),
        forall|i: int|
            0 <= i < table@.len() ==> (#[trigger] table@[i]).0 == def_table()[i].0 && table@[i].1@
                == def_table()[i].1,
{
    vec![
        (TerrainPipelineFlags::SPHERICAL, "SPHERICAL"),
        (TerrainPipelineFlags::SHOW_DATA_LOD, "SHOW_DATA_LOD"),
        (TerrainPipelineFlags::SHOW_GEOMETRY_LOD, "SHOW_GEOMETRY_LOD"),
        (TerrainPipelineFlags::SHOW_TILE_TREE, "SHOW_TILE_TREE"),
        (TerrainPipelineFlags::SHOW_PIXELS, "SHOW_PIXELS"),
        (TerrainPipelineFlags::SHOW_UV, "SHOW_UV"),
        (TerrainPipelineFlags::SHOW_NORMALS, "SHOW_NORMALS"),
        (TerrainPipelineFlags::MORPH, "MORPH"),
        (TerrainPipelineFlags::BLEND, "BLEND"),
        (TerrainPipelineFlags::TILE_TREE_LOD, "TILE_TREE_LOD"),
        (TerrainPipelineFlags::LIGHTING, "LIGHTING"),
        (TerrainPipelineFlags::SAMPLE_GRAD, "SAMPLE_GRAD"),
        (TerrainPipelineFlags::HIGH_PRECISION, "HIGH_PRECISION"),
        (TerrainPipelineFlags::TEST1, "TEST1"),
        (TerrainPipelineFlags::TEST2, "TEST2"),
        (TerrainPipelineFlags::TEST3, "TEST3"),
        (TerrainPipelineFlags::HDR, "HDR"),
        (TerrainPipelineFlags::ATMOSPHERE, "ATMOSPHERE"),
        (TerrainPipelineFlags::ENVIRONMENT_MAP, "ENVIRONMENT_MAP"),
        (TerrainPipelineFlags::TERRAIN_SHADOW, "TERRAIN_SHADOW"),
        (TerrainPipelineFlags::DEFERRED, "DEFERRED_PREPASS"),
    ]
}

impl TerrainPipelineFlags {
    /// Whether a flag is set.
    pub open spec fn has(self, flag: u32) -> bool {
        self.bits & flag == flag
    }

    /// The number of samples.
    pub open spec fn samples(self) -> int {
        ((self.bits >> 26) & 0x3f) + 1
    }

    /// The shader definitions.
    pub open spec fn defs(self) -> Seq<Seq<char>> {
        defs_of(self.bits, def_table().len())
    }

    /// Whether a flag is set.
    pub fn contains(&self, flag: u32) -> (set: bool)
        ensures
            set == self.has(flag),
    {
        self.bits & flag == flag
    }

    /// Sets a flag, if it is on.
    fn set_if(&mut self, on: bool, flag: u32)
        ensures
            final(self).bits == old(self).bits | flag_if(on, flag),
    {
        let bits: u32 = self.bits;
        assert(bits | 0 == bits) by (bit_vector);
        if on {
            self.bits = self.bits | flag;
        }
    }

    /// The flags for a number of samples.
    pub fn from_msaa_samples(msaa_samples: u32) -> (flags: Self)
        requires
            msaa_samples >= 1,
        ensures
            flags.bits == (((msaa_samples - 1) as u32) & 0x3f) << 26,
            flags.bits == sample_bits(msaa_samples),
            msaa_samples <= 64 ==> flags.bits == (msaa_samples - 1) * 0x4000000,
    {
        proof {
            if msaa_samples <= 64 {
                samples_round_trip(msaa_samples);
            }
        }
        TerrainPipelineFlags { bits: ((msaa_samples - 1) & 0x3f) << 26 }
    }

    /// The flags of the debug settings.
    pub fn from_debug(debug: &DebugTerrain) -> (flags: Self)
        ensures
            flags.bits == debug_bits(*debug),
    {
        let mut shown = TerrainPipelineFlags { bits: TerrainPipelineFlags::NONE };
        let ghost first = flag_if(debug.wireframe, TerrainPipelineFlags::WIREFRAME);
        assert(0 | first == first) by (bit_vector);
        shown.set_if(debug.wireframe, TerrainPipelineFlags::WIREFRAME);
        shown.set_if(debug.show_data_lod, TerrainPipelineFlags::SHOW_DATA_LOD);
        shown.set_if(debug.show_geometry_lod, TerrainPipelineFlags::SHOW_GEOMETRY_LOD);
        shown.set_if(debug.show_tile_tree, TerrainPipelineFlags::SHOW_TILE_TREE);
        shown.set_if(debug.show_pixels, TerrainPipelineFlags::SHOW_PIXELS);
        shown.set_if(debug.show_uv, TerrainPipelineFlags::SHOW_UV);
        shown.set_if(debug.show_normals, TerrainPipelineFlags::SHOW_NORMALS);
        let mut shading = TerrainPipelineFlags { bits: TerrainPipelineFlags::NONE };
        let ghost first = flag_if(debug.morph, TerrainPipelineFlags::MORPH);
        assert(0 | first == first) by (bit_vector);
        shading.set_if(debug.morph, TerrainPipelineFlags::MORPH);
        shading.set_if(debug.blend, TerrainPipelineFlags::BLEND);
        shading.set_if(debug.tile_tree_lod, TerrainPipelineFlags::TILE_TREE_LOD);
        shading.set_if(debug.lighting, TerrainPipelineFlags::LIGHTING);
        shading.set_if(debug.sample_grad, TerrainPipelineFlags::SAMPLE_GRAD);
        shading.set_if(debug.high_precision, TerrainPipelineFlags::HIGH_PRECISION);
        let mut test = TerrainPipelineFlags { bits: TerrainPipelineFlags::NONE };
        let ghost first = flag_if(debug.test1, TerrainPipelineFlags::TEST1);
        assert(0 | first == first) by (bit_vector);
        test.set_if(debug.test1, TerrainPipelineFlags::TEST1);
        test.set_if(debug.test2, TerrainPipelineFlags::TEST2);
        test.set_if(debug.test3, TerrainPipelineFlags::TEST3);
        TerrainPipelineFlags { bits: shown.bits | shading.bits | test.bits }
    }

    /// The number of samples.
    pub fn msaa_samples(&self) -> (samples: u32)
        ensures
            samples == self.samples(),
    {
        let bits: u32 = self.bits;
        assert((bits >> 26) & 0x3f <= 0x3f) by (bit_vector);
        ((self.bits >> 26) & 0x3f) + 1
    }

    /// How the triangles are drawn.
    pub fn polygon_mode(&self) -> (mode: PolygonMode)
        ensures
            mode == mode_of(*self),
            mode == if self.has(TerrainPipelineFlags::WIREFRAME) {
                PolygonMode::Line
            } else {
                PolygonMode::Fill
            },
    {
        if self.contains(TerrainPipelineFlags::WIREFRAME) {
            PolygonMode::Line
        } else {
            PolygonMode::Fill
        }
    }

    /// The shader definitions.
    pub fn shader_defs(&self) -> (defs: Vec<&'static str>)
        ensures
            texts(defs@) == self.defs(),
    {
        let table = shader_def_table();
        let mut defs: Vec<&'static str> = Vec::new();
        let mut i: usize = 0;
        assert(texts(defs@) =~= defs_of(self.bits, 0));
        while i < table.len()
            invariant
                i <= table@.len(),
                table@.len() == def_table().len(),
                forall|j: int|
                    0 <= j < table@.len() ==> (#[trigger] table@[j]).0 == def_table()[j].0
                        && table@[j].1@ == def_table()[j].1,
                texts(defs@) == defs_of(self.bits, i as nat),
            decreases table@.len() - i,
        {
            let ghost before = defs@;
            let (flag, name) = table[i];
            if self.contains(flag) {
                defs.push(name);
                assert(texts(defs@) =~= texts(before).push(name@));
            }
            i += 1;
        }
        defs
    }
}

/// How the triangles of a pipeline are drawn.
pub open spec fn mode_of(flags: TerrainPipelineFlags) -> PolygonMode {
    if flags.has(TerrainPipelineFlags::WIREFRAME) {
        PolygonMode::Line
    } else {
        PolygonMode::Fill
    }
}

/// How opaque materials are rendered.
#[derive(Clone, Copy, Debug, PartialEq, Eq, Structural)]
pub enum OpaqueRendererMethod {
    Forward,
    Deferred,
    Auto,
}

/// Whether a terrain goes through the deferred G-buffer on a view: the view has a deferred prepass,
/// and opaque materials are deferred by default.
pub open spec fn renders_deferred(
    has_deferred_prepass: bool,
    method: Option<OpaqueRendererMethod>,
) -> bool {
    has_deferred_prepass && method == Some(OpaqueRendererMethod::Deferred)
}

/// Whether a terrain goes through the deferred G-buffer on a view. All passes have to decide by this
/// rule, or they would disagree.
pub fn terrain_renders_deferred(
    has_deferred_prepass: bool,
    method: Option<OpaqueRendererMethod>,
) -> (deferred: bool)
    ensures
        deferred == renders_deferred(has_deferred_prepass, method),
{
    has_deferred_prepass && matches!(method, Some(OpaqueRendererMethod::Deferred))
}

/// The format of the color target of a view.
#[derive(Clone, Copy, Debug, PartialEq, Eq, Structural, Hash)]
pub enum ColorFormat {
    Rgba8Unorm,
    Rgba8UnormSrgb,
    /// Any other format. They hold high dynamic range colors.
    Other,
}

/// How shadow maps are filtered.
#[derive(Clone, Copy, Debug, PartialEq, Eq, Structural, Hash)]
pub enum ShadowFilterMethod {
    Hardware2x2,
    Gaussian,
    Temporal,
    /// A method that the shaders do not know.
    Other,
}

/// What determines the render pipeline of a terrain.
#[derive(Clone, Copy, Debug, PartialEq, Eq, Structural, Hash)]
pub struct TerrainPipelineKey {
    pub flags: TerrainPipelineFlags,
    pub color_target_format: ColorFormat,
    /// The filter of the meshes of the view. Without one, everything would be in shadow.
    pub shadow_filter_method: ShadowFilterMethod,
}

/// What a view brings to the choice of a pipeline.
#[derive(Clone, Copy, Debug, PartialEq, Eq, Structural)]
pub struct QueuedView {
    /// Whether the view has a phase that terrains can be added to.
    pub has_phase: bool,
    /// The shadow filter of the view, if its meshes have been prepared.
    pub shadow_filter_method: Option<ShadowFilterMethod>,
    pub msaa_samples: u32,
    pub target_format: ColorFormat,
    pub has_atmosphere: bool,
    pub has_environment_maps: bool,
    pub has_deferred_prepass: bool,
}

/// What all views and terrains share in the choice of a pipeline.
#[derive(Clone, Copy, Debug, PartialEq, Eq, Structural)]
pub struct QueueSettings {
    pub debug: Option<DebugTerrain>,
    pub terrain_shadow: bool,
    pub method: Option<OpaqueRendererMethod>,
}

/// A terrain that is drawn on a view.
#[derive(Clone, Copy, Debug, PartialEq, Eq, Structural)]
pub struct QueuedTerrain {
    pub key: TerrainPipelineKey,
    /// The priority of the terrain.
    pub order: u32,
}

/// The flags of what is shown without a debug mode.
pub open spec fn default_bits() -> u32 {
    TerrainPipelineFlags::LIGHTING | TerrainPipelineFlags::MORPH | TerrainPipelineFlags::BLEND
        | TerrainPipelineFlags::SAMPLE_GRAD | TerrainPipelineFlags::HIGH_PRECISION
}

/// The flags of a terrain on a view. Rendering through the G-buffer implies lighting, even where the
/// debug mode turns it off: there is no other output.
pub open spec fn view_bits(settings: QueueSettings, view: QueuedView, is_spherical: bool) -> u32 {
    (((view.msaa_samples - 1) as u32) & 0x3f) << 26
        | flag_if(is_spherical, TerrainPipelineFlags::SPHERICAL)
        | flag_if(view.target_format is Other, TerrainPipelineFlags::HDR)
        | flag_if(view.has_atmosphere, TerrainPipelineFlags::ATMOSPHERE)
        | flag_if(view.has_environment_maps, TerrainPipelineFlags::ENVIRONMENT_MAP)
        | flag_if(settings.terrain_shadow, TerrainPipelineFlags::TERRAIN_SHADOW)
        | (match settings.debug {
        Some(debug) => debug_bits(debug),
        None => default_bits(),
    }) | flag_if(
        renders_deferred(view.has_deferred_prepass, settings.method),
        TerrainPipelineFlags::DEFERRED | TerrainPipelineFlags::LIGHTING,
    )
}

/// How a terrain is drawn on a view, if it is.
pub open spec fn queued(
    settings: QueueSettings,
    view: QueuedView,
    is_spherical: bool,
    order: Option<u32>,
) -> Option<QueuedTerrain> {
    match (order, view.shadow_filter_method) {
        (Some(order), Some(shadow_filter_method)) if view.has_phase => Some(
            QueuedTerrain {
                key: TerrainPipelineKey {
                    flags: TerrainPipelineFlags { bits: view_bits(settings, view, is_spherical) },
                    color_target_format: view.target_format,
                    shadow_filter_method,
                },
                order,
            },
        ),
        _ => None,
    }
}

/// Decides whether and how a terrain is drawn on a view. `order` is the priority of the terrain, if
/// the view has buffers for it.
pub fn queue_terrain(
    settings: &QueueSettings,
    view: &QueuedView,
    is_spherical: bool,
    order: Option<u32>,
) -> (item: Option<QueuedTerrain>)
    requires
        view.msaa_samples >= 1,
    ensures
        item == queued(*settings, *view, is_spherical, order),
        item is Some <==> view.has_phase && order is Some && view.shadow_filter_method is Some,
        item is Some ==> item->Some_0 == (QueuedTerrain {
            key: TerrainPipelineKey {
                flags: TerrainPipelineFlags { bits: view_bits(*settings, *view, is_spherical) },
                color_target_format: view.target_format,
                shadow_filter_method: view.shadow_filter_method->Some_0,
            },
            order: order->Some_0,
        }),
{
    if !view.has_phase {
        return None;
    }
    let Some(order) = order else {
        return None;
    };
    let Some(shadow_filter_method) = view.shadow_filter_method else {
        return None;
    };
    let mut flags = TerrainPipelineFlags::from_msaa_samples(view.msaa_samples);
    flags.set_if(is_spherical, TerrainPipelineFlags::SPHERICAL);
    flags.set_if(matches!(view.target_format, ColorFormat::Other), TerrainPipelineFlags::HDR);
    flags.set_if(view.has_atmosphere, TerrainPipelineFlags::ATMOSPHERE);
    flags.set_if(view.has_environment_maps, TerrainPipelineFlags::ENVIRONMENT_MAP);
    flags.set_if(settings.terrain_shadow, TerrainPipelineFlags::TERRAIN_SHADOW);
    let shown: u32 = match &settings.debug {
        Some(debug) => TerrainPipelineFlags::from_debug(debug).bits,
        None => TerrainPipelineFlags::LIGHTING | TerrainPipelineFlags::MORPH
            | TerrainPipelineFlags::BLEND | TerrainPipelineFlags::SAMPLE_GRAD
            | TerrainPipelineFlags::HIGH_PRECISION,
    };
    flags.set_if(true, shown);
    flags.set_if(
        terrain_renders_deferred(view.has_deferred_prepass, settings.method),
        TerrainPipelineFlags::DEFERRED | TerrainPipelineFlags::LIGHTING,
    );
    Some(
        QueuedTerrain {
            key: TerrainPipelineKey {
                flags,
                color_target_format: view.target_format,
                shadow_filter_method,
            },
            order,
        },
    )
}

/// A bind group layout of the pipeline of a terrain.
#[derive(Clone, Copy, Debug, PartialEq, Eq, Structural)]
pub enum Layout {
    /// The view, as all meshes see it.
    View,
    /// The binding arrays of the view.
    ViewBindingArray,
    Terrain,
    TerrainView,
    /// Like `TerrainView`, for the debug mode that shows the tile tree.
    TerrainViewDebug,
    Material,
}

/// The color targets of the pipeline of a terrain.
#[derive(Clone, Copy, Debug, PartialEq, Eq, Structural)]
pub enum Targets {
    /// The color target of the view.
    View(ColorFormat),
    /// The targets of the G-buffer.
    GBuffer,
}

/// What distinguishes the pipelines of terrains.
pub struct PipelinePlan {
    pub layouts: Vec<Layout>,
    pub vertex_defs: Vec<&'static str>,
    pub fragment_defs: Vec<&'static str>,
    pub targets: Targets,
    pub polygon_mode: PolygonMode,
    pub samples: u32,
}

/// The shader definition of a shadow filter.
pub open spec fn filter_def(method: ShadowFilterMethod) -> Seq<Seq<char>> {
    match method {
        ShadowFilterMethod::Hardware2x2 => seq!["SHADOW_FILTER_METHOD_HARDWARE_2X2"@],
        ShadowFilterMethod::Gaussian => seq!["SHADOW_FILTER_METHOD_GAUSSIAN"@],
        ShadowFilterMethod::Temporal => seq!["SHADOW_FILTER_METHOD_TEMPORAL"@],
        ShadowFilterMethod::Other => Seq::empty(),
    }
}

/// A shader definition, if it is on.
pub open spec fn def_if(on: bool, name: Seq<char>) -> Seq<Seq<char>> {
    if on {
        seq![name]
    } else {
        Seq::empty()
    }
}

/// The shader definitions that the shaders of a pipeline share.
pub open spec fn shared_defs(key: TerrainPipelineKey, binding_arrays: bool) -> Seq<Seq<char>> {
    key.flags.defs() + def_if(key.flags.samples() > 1, "MULTISAMPLED"@) + def_if(
        binding_arrays,
        "MULTIPLE_LIGHT_PROBES_IN_ARRAY"@,
    ) + filter_def(key.shadow_filter_method)
}

/// Whether a pipeline uses the debug layout of the view of a terrain.
pub open spec fn uses_debug_layout(flags: TerrainPipelineFlags) -> bool {
    flags.has(TerrainPipelineFlags::SHOW_TILE_TREE) && !flags.has(TerrainPipelineFlags::ATMOSPHERE)
}

/// The bind group layouts of a pipeline.
pub open spec fn layouts_of(flags: TerrainPipelineFlags) -> Seq<Layout> {
    seq![
        Layout::View,
        Layout::ViewBindingArray,
        Layout::Terrain,
        if uses_debug_layout(flags) {
            Layout::TerrainViewDebug
        } else {
            Layout::TerrainView
        },
        Layout::Material,
    ]
}

/// The color targets of a pipeline.
pub open spec fn targets_of(key: TerrainPipelineKey) -> Targets {
    if key.flags.has(TerrainPipelineFlags::DEFERRED) {
        Targets::GBuffer
    } else {
        Targets::View(key.color_target_format)
    }
}

/// The shader definitions of the vertex shader of a pipeline.
pub open spec fn vertex_defs_of(key: TerrainPipelineKey, binding_arrays: bool) -> Seq<Seq<char>> {
    shared_defs(key, binding_arrays).push("VERTEX"@)
}

/// The shader definitions of the fragment shader of a pipeline.
pub open spec fn fragment_defs_of(key: TerrainPipelineKey, binding_arrays: bool) -> Seq<Seq<char>> {
    shared_defs(key, binding_arrays).push("FRAGMENT"@)
}

/// Appends a shader definition.
fn push_def(defs: &mut Vec<&'static str>, name: &'static str)
    ensures
        texts(final(defs)@) == texts(old(defs)@).push(name@),
{
    defs.push(name);
    assert(texts(defs@) =~= texts(old(defs)@).push(name@));
}

/// The pipeline for a key.
pub fn specialize(key: &TerrainPipelineKey, binding_arrays_are_usable: bool) -> (plan: PipelinePlan)
    ensures
        plan.layouts@ == layouts_of(key.flags),
        texts(plan.vertex_defs@) == vertex_defs_of(*key, binding_arrays_are_usable),
        texts(plan.fragment_defs@) == fragment_defs_of(*key, binding_arrays_are_usable),
        plan.targets == targets_of(*key),
        plan.polygon_mode == mode_of(key.flags),
        plan.layouts@ == seq![
            Layout::View,
            Layout::ViewBindingArray,
            Layout::Terrain,
            if uses_debug_layout(key.flags) {
                Layout::TerrainViewDebug
            } else {
                Layout::TerrainView
            },
            Layout::Material,
        ],
        texts(plan.vertex_defs@) == shared_defs(*key, binding_arrays_are_usable).push("VERTEX"@),
        texts(plan.fragment_defs@) == shared_defs(*key, binding_arrays_are_usable).push(
            "FRAGMENT"@,
        ),
        plan.targets == if key.flags.has(TerrainPipelineFlags::DEFERRED) {
            Targets::GBuffer
        } else {
            Targets::View(key.color_target_format)
        },
        plan.polygon_mode == if key.flags.has(TerrainPipelineFlags::WIREFRAME) {
            PolygonMode::Line
        } else {
            PolygonMode::Fill
        },
        plan.samples == key.flags.samples(),
{
    let mut shader_defs = key.flags.shader_defs();
    let samples: u32 = key.flags.msaa_samples();
    let ghost named = key.flags.defs();
    if samples > 1 {
        push_def(&mut shader_defs, "MULTISAMPLED");
    }
    let ghost sampled = named + def_if(samples > 1, "MULTISAMPLED"@);
    assert(texts(shader_defs@) =~= sampled);
    if binding_arrays_are_usable {
        push_def(&mut shader_defs, "MULTIPLE_LIGHT_PROBES_IN_ARRAY");
    }
    let ghost probed = sampled + def_if(
        binding_arrays_are_usable,
        "MULTIPLE_LIGHT_PROBES_IN_ARRAY"@,
    );
    assert(texts(shader_defs@) =~= probed);
    match key.shadow_filter_method {
        ShadowFilterMethod::Hardware2x2 => push_def(
            &mut shader_defs,
            "SHADOW_FILTER_METHOD_HARDWARE_2X2",
        ),
        ShadowFilterMethod::Gaussian => push_def(&mut shader_defs, "SHADOW_FILTER_METHOD_GAUSSIAN"),
        ShadowFilterMethod::Temporal => push_def(&mut shader_defs, "SHADOW_FILTER_METHOD_TEMPORAL"),
        ShadowFilterMethod::Other => {},
    }
    assert(texts(shader_defs@) =~= shared_defs(*key, binding_arrays_are_usable));
    let debug_layout = key.flags.contains(TerrainPipelineFlags::SHOW_TILE_TREE)
        && !key.flags.contains(TerrainPipelineFlags::ATMOSPHERE);
    let mut vertex_defs = shader_defs.clone();
    assert(vertex_defs@ =~= shader_defs@);
    let mut fragment_defs = shader_defs;
    push_def(&mut vertex_defs, "VERTEX");
    push_def(&mut fragment_defs, "FRAGMENT");
    PipelinePlan {
        layouts: vec![
            Layout::View,
            Layout::ViewBindingArray,
            Layout::Terrain,
            if debug_layout {
                Layout::TerrainViewDebug
            } else {
                Layout::TerrainView
            },
            Layout::Material,
        ],
        vertex_defs,
        fragment_defs,
        targets: if key.flags.contains(TerrainPipelineFlags::DEFERRED) {
            Targets::GBuffer
        } else {
            Targets::View(key.color_target_format)
        },
        polygon_mode: key.flags.polygon_mode(),
        samples,
    }
}

/// The number of samples survives its encoding, up to the 64 that six bits can hold.
pub proof fn samples_round_trip(msaa_samples: u32)
    requires
        1 <= msaa_samples <= 64,
    ensures
        (TerrainPipelineFlags { bits: (((msaa_samples - 1) as u32) & 0x3f) << 26 }).samples()
            == msaa_samples,
        (TerrainPipelineFlags { bits: sample_bits(msaa_samples) }).samples() == msaa_samples,
        sample_bits(msaa_samples) == (msaa_samples - 1) * 0x4000000,
{
    let less = (msaa_samples - 1) as u32;
    assert((((less & 0x3f) << 26) >> 26) & 0x3f == less && (less & 0x3f) << 26 == less * 0x4000000)
        by (bit_vector)
        requires
            less < 64,
    ;
}

/// The number of samples is what the highest six bits hold, and one more.
pub proof fn samples_are_the_highest_bits(flags: TerrainPipelineFlags)
    ensures
        flags.samples() == flags.bits / 0x4000000 + 1,
        1 <= flags.samples() <= 64,
{
    let bits = flags.bits;
    assert((bits >> 26) & 0x3f == bits / 0x4000000 && bits / 0x4000000 < 64) by (bit_vector);
}

/// Flags contain a set of flags exactly if they contain each of its parts. They contain no flag, and
/// what they consist of; without any flag they contain none.
pub proof fn flags_are_contained_part_by_part(bits: u32, a: u32, b: u32)
    ensures
        ({
            let flags = TerrainPipelineFlags { bits };
            &&& flags.has(a | b) <==> flags.has(a) && flags.has(b)
            &&& flags.has(0)
            &&& flags.has(bits)
            &&& (TerrainPipelineFlags { bits: bits | a }).has(a)
            &&& (TerrainPipelineFlags { bits: 0 }).has(a) <==> a == 0
        }),
{
    assert((bits & (a | b) == (a | b) <==> (bits & a == a && bits & b == b)) && bits & 0 == 0 && bits
        & bits == bits && (bits | a) & a == a && (0u32 & a == a <==> a == 0)) by (bit_vector);
}

/// The flags of what is shown in place of the terrain can be told apart.
proof fn shown_flags_differ(bits: u32, wireframe: bool, show_data_lod: bool, show_geometry_lod: bool, show_tile_tree: bool, show_pixels: bool, show_uv: bool, show_normals: bool)
    by (bit_vector)
    requires
        bits == flag_if(wireframe, TerrainPipelineFlags::WIREFRAME)
            | flag_if(show_data_lod, TerrainPipelineFlags::SHOW_DATA_LOD)
            | flag_if(show_geometry_lod, TerrainPipelineFlags::SHOW_GEOMETRY_LOD)
            | flag_if(show_tile_tree, TerrainPipelineFlags::SHOW_TILE_TREE)
            | flag_if(show_pixels, TerrainPipelineFlags::SHOW_PIXELS)
            | flag_if(show_uv, TerrainPipelineFlags::SHOW_UV)
            | flag_if(show_normals, TerrainPipelineFlags::SHOW_NORMALS),
    ensures
        (bits & 0x2 == 0x2) == wireframe,
        (bits & 0x4 == 0x4) == show_data_lod,
        (bits & 0x8 == 0x8) == show_geometry_lod,
        (bits & 0x10 == 0x10) == show_tile_tree,
        (bits & 0x20 == 0x20) == show_pixels,
        (bits & 0x40 == 0x40) == show_uv,
        (bits & 0x80 == 0x80) == show_normals,
        bits & !0xfeu32 == 0,
{
}

/// The flags of how the terrain is drawn can be told apart.
proof fn shading_flags_differ(bits: u32, morph: bool, blend: bool, tile_tree_lod: bool, lighting: bool, sample_grad: bool, high_precision: bool)
    by (bit_vector)
    requires
        bits == flag_if(morph, TerrainPipelineFlags::MORPH)
            | flag_if(blend, TerrainPipelineFlags::BLEND)
            | flag_if(tile_tree_lod, TerrainPipelineFlags::TILE_TREE_LOD)
            | flag_if(lighting, TerrainPipelineFlags::LIGHTING)
            | flag_if(sample_grad, TerrainPipelineFlags::SAMPLE_GRAD)
            | flag_if(high_precision, TerrainPipelineFlags::HIGH_PRECISION),
    ensures
        (bits & 0x100 == 0x100) == morph,
        (bits & 0x200 == 0x200) == blend,
        (bits & 0x400 == 0x400) == tile_tree_lod,
        (bits & 0x800 == 0x800) == lighting,
        (bits & 0x1000 == 0x1000) == sample_grad,
        (bits & 0x2000 == 0x2000) == high_precision,
        bits & !0x3f00u32 == 0,
{
}

/// The flags of experiments can be told apart.
proof fn test_flags_differ(bits: u32, test1: bool, test2: bool, test3: bool)
    by (bit_vector)
    requires
        bits == flag_if(test1, TerrainPipelineFlags::TEST1)
            | flag_if(test2, TerrainPipelineFlags::TEST2)
            | flag_if(test3, TerrainPipelineFlags::TEST3),
    ensures
        (bits & 0x4000 == 0x4000) == test1,
        (bits & 0x8000 == 0x8000) == test2,
        (bits & 0x10000 == 0x10000) == test3,
        bits & !0x1c000u32 == 0,
{
}

/// The flags of what is shown in place of the terrain follow their settings.
proof fn shown_flags(debug: DebugTerrain, bits: u32)
    requires
        bits == shown_bits(debug),
    ensures
        (bits & 0x2 == 0x2) == debug.wireframe,
        (bits & 0x4 == 0x4) == debug.show_data_lod,
        (bits & 0x8 == 0x8) == debug.show_geometry_lod,
        (bits & 0x10 == 0x10) == debug.show_tile_tree,
        (bits & 0x20 == 0x20) == debug.show_pixels,
        (bits & 0x40 == 0x40) == debug.show_uv,
        (bits & 0x80 == 0x80) == debug.show_normals,
        bits & !0xfeu32 == 0,
{
    shown_flags_differ(
        bits,
        debug.wireframe,
        debug.show_data_lod,
        debug.show_geometry_lod,
        debug.show_tile_tree,
        debug.show_pixels,
        debug.show_uv,
        debug.show_normals,
    );
}

/// The flags of how the terrain is drawn follow their settings.
proof fn shading_flags(debug: DebugTerrain, bits: u32)
    requires
        bits == shading_bits(debug),
    ensures
        (bits & 0x100 == 0x100) == debug.morph,
        (bits & 0x200 == 0x200) == debug.blend,
        (bits & 0x400 == 0x400) == debug.tile_tree_lod,
        (bits & 0x800 == 0x800) == debug.lighting,
        (bits & 0x1000 == 0x1000) == debug.sample_grad,
        (bits & 0x2000 == 0x2000) == debug.high_precision,
        bits & !0x3f00u32 == 0,
{
    shading_flags_differ(
        bits,
        debug.morph,
        debug.blend,
        debug.tile_tree_lod,
        debug.lighting,
        debug.sample_grad,
        debug.high_precision,
    );
}

/// The flags of experiments follow their settings.
proof fn test_flags(debug: DebugTerrain, bits: u32)
    requires
        bits == test_bits(debug),
    ensures
        (bits & 0x4000 == 0x4000) == debug.test1,
        (bits & 0x8000 == 0x8000) == debug.test2,
        (bits & 0x10000 == 0x10000) == debug.test3,
        bits & !0x1c000u32 == 0,
{
    test_flags_differ(
        bits,
        debug.test1,
        debug.test2,
        debug.test3,
    );
}

/// Groups of flags that do not overlap can be told apart.
proof fn groups_differ(bits: u32, shown: u32, shading: u32, test: u32)
    by (bit_vector)
    requires
        bits == shown | shading | test,
        shown & !0xfeu32 == 0,
        shading & !0x3f00u32 == 0,
        test & !0x1c000u32 == 0,
    ensures
        bits & 0x2 == shown & 0x2,
        bits & 0x4 == shown & 0x4,
        bits & 0x8 == shown & 0x8,
        bits & 0x10 == shown & 0x10,
        bits & 0x20 == shown & 0x20,
        bits & 0x40 == shown & 0x40,
        bits & 0x80 == shown & 0x80,
        bits & 0x100 == shading & 0x100,
        bits & 0x200 == shading & 0x200,
        bits & 0x400 == shading & 0x400,
        bits & 0x800 == shading & 0x800,
        bits & 0x1000 == shading & 0x1000,
        bits & 0x2000 == shading & 0x2000,
        bits & 0x4000 == test & 0x4000,
        bits & 0x8000 == test & 0x8000,
        bits & 0x10000 == test & 0x10000,
        bits & !0x1fffeu32 == 0,
{
}

/// Every debug setting has its own flag, which is set if and only if the setting is on; no other flag
/// is ever set by them.
pub proof fn debug_flags_are_independent(debug: DebugTerrain)
    ensures
        ({
            let flags = TerrainPipelineFlags { bits: debug_bits(debug) };
            &&& flags.has(TerrainPipelineFlags::WIREFRAME) == debug.wireframe
            &&& flags.has(TerrainPipelineFlags::SHOW_DATA_LOD) == debug.show_data_lod
            &&& flags.has(TerrainPipelineFlags::SHOW_GEOMETRY_LOD) == debug.show_geometry_lod
            &&& flags.has(TerrainPipelineFlags::SHOW_TILE_TREE) == debug.show_tile_tree
            &&& flags.has(TerrainPipelineFlags::SHOW_PIXELS) == debug.show_pixels
            &&& flags.has(TerrainPipelineFlags::SHOW_UV) == debug.show_uv
            &&& flags.has(TerrainPipelineFlags::SHOW_NORMALS) == debug.show_normals
            &&& flags.has(TerrainPipelineFlags::MORPH) == debug.morph
            &&& flags.has(TerrainPipelineFlags::BLEND) == debug.blend
            &&& flags.has(TerrainPipelineFlags::TILE_TREE_LOD) == debug.tile_tree_lod
            &&& flags.has(TerrainPipelineFlags::LIGHTING) == debug.lighting
            &&& flags.has(TerrainPipelineFlags::SAMPLE_GRAD) == debug.sample_grad
            &&& flags.has(TerrainPipelineFlags::HIGH_PRECISION) == debug.high_precision
            &&& flags.has(TerrainPipelineFlags::TEST1) == debug.test1
            &&& flags.has(TerrainPipelineFlags::TEST2) == debug.test2
            &&& flags.has(TerrainPipelineFlags::TEST3) == debug.test3
            &&& flags.bits & !0x1fffeu32 == 0
        }),
{
    let shown = shown_bits(debug);
    let shading = shading_bits(debug);
    let test = test_bits(debug);
    shown_flags(debug, shown);
    shading_flags(debug, shading);
    test_flags(debug, test);
    groups_differ(debug_bits(debug), shown, shading, test);
}

/// The flags of a terrain on a view. The number of samples is that of the view; a terrain that goes
/// through the G-buffer is lit; the other flags follow the view, the settings and the debug mode.
pub proof fn view_flags_are_independent(
    settings: QueueSettings,
    view: QueuedView,
    is_spherical: bool,
)
    requires
        1 <= view.msaa_samples <= 64,
    ensures
        ({
            let flags = TerrainPipelineFlags { bits: view_bits(settings, view, is_spherical) };
            let deferred = renders_deferred(view.has_deferred_prepass, settings.method);
            &&& flags.samples() == view.msaa_samples
            &&& flags.has(TerrainPipelineFlags::SPHERICAL) == is_spherical
            &&& flags.has(TerrainPipelineFlags::HDR) == view.target_format is Other
            &&& flags.has(TerrainPipelineFlags::ATMOSPHERE) == view.has_atmosphere
            &&& flags.has(TerrainPipelineFlags::ENVIRONMENT_MAP) == view.has_environment_maps
            &&& flags.has(TerrainPipelineFlags::TERRAIN_SHADOW) == settings.terrain_shadow
            &&& flags.has(TerrainPipelineFlags::DEFERRED) == deferred
            &&& flags.has(TerrainPipelineFlags::LIGHTING) == (deferred || match settings.debug {
                Some(debug) => debug.lighting,
                None => true,
            })
            &&& flags.has(TerrainPipelineFlags::SHOW_TILE_TREE) == match settings.debug {
                Some(debug) => debug.show_tile_tree,
                None => false,
            }
            &&& flags.has(TerrainPipelineFlags::WIREFRAME) == match settings.debug {
                Some(debug) => debug.wireframe,
                None => false,
            }
        }),
{
    let less = (view.msaa_samples - 1) as u32;
    let spherical = flag_if(is_spherical, 0x1);
    let hdr = flag_if(view.target_format is Other, 0x20000);
    let atmosphere = flag_if(view.has_atmosphere, 0x40000);
    let environment = flag_if(view.has_environment_maps, 0x80000);
    let shadow = flag_if(settings.terrain_shadow, 0x100000);
    let shown = match settings.debug {
        Some(debug) => debug_bits(debug),
        None => default_bits(),
    };
    let gbuffer = flag_if(
        renders_deferred(view.has_deferred_prepass, settings.method),
        TerrainPipelineFlags::DEFERRED | TerrainPipelineFlags::LIGHTING,
    );
    let bits = view_bits(settings, view, is_spherical);
    match settings.debug {
        Some(debug) => {
            debug_flags_are_independent(debug);
        },
        None => {},
    }
    assert(shown & !0x1fffeu32 == 0) by {
        assert((0x800u32 | 0x100 | 0x200 | 0x1000 | 0x2000) & !0x1fffeu32 == 0) by (bit_vector);
    }
    assert(0x200000u32 | 0x800 == 0x200800) by (bit_vector);
    assert(((bits >> 26) & 0x3f) == less && bits & 0x1 == spherical && bits & 0x20000 == hdr && bits
        & 0x40000 == atmosphere && bits & 0x80000 == environment && bits & 0x100000 == shadow && (
    bits & 0x200000 == 0x200000 <==> gbuffer != 0) && (bits & 0x800 == 0x800 <==> gbuffer != 0
        || shown & 0x800 == 0x800) && bits & 0x10 == shown & 0x10 && bits & 0x2 == shown & 0x2)
        by (bit_vector)
        requires
            bits == (less & 0x3f) << 26 | spherical | hdr | atmosphere | environment | shadow | shown
                | gbuffer,
            less < 64,
            spherical == 0 || spherical == 0x1,
            hdr == 0 || hdr == 0x20000,
            atmosphere == 0 || atmosphere == 0x40000,
            environment == 0 || environment == 0x80000,
            shadow == 0 || shadow == 0x100000,
            shown & !0x1fffeu32 == 0,
            gbuffer == 0 || gbuffer == 0x200800,
    ;
    assert((0x800u32 | 0x100 | 0x200 | 0x1000 | 0x2000) & 0x800 == 0x800 && (0x800u32 | 0x100 | 0x200
        | 0x1000 | 0x2000) & 0x10 == 0 && (0x800u32 | 0x100 | 0x200 | 0x1000 | 0x2000) & 0x2 == 0)
        by (bit_vector);
}

/// The flags of what is shown stay what they are among the flags of a view, and nothing else is set.
proof fn shown_flags_are_kept(
    bits: u32,
    samples: u32,
    spherical: u32,
    hdr: u32,
    atmosphere: u32,
    environment: u32,
    shadow: u32,
    shown: u32,
    gbuffer: u32,
)
    by (bit_vector)
    requires
        bits == samples << 26 | spherical | hdr | atmosphere | environment | shadow | shown | gbuffer,
        spherical == 0 || spherical == 0x1,
        hdr == 0 || hdr == 0x20000,
        atmosphere == 0 || atmosphere == 0x40000,
        environment == 0 || environment == 0x80000,
        shadow == 0 || shadow == 0x100000,
        shown & !0x1fffeu32 == 0,
        gbuffer == 0 || gbuffer == 0x200800,
    ensures
        bits & 0x2 == shown & 0x2,
        bits & 0x4 == shown & 0x4,
        bits & 0x8 == shown & 0x8,
        bits & 0x10 == shown & 0x10,
        bits & 0x20 == shown & 0x20,
        bits & 0x40 == shown & 0x40,
        bits & 0x80 == shown & 0x80,
        bits & 0x100 == shown & 0x100,
        bits & 0x200 == shown & 0x200,
        bits & 0x400 == shown & 0x400,
        bits & 0x1000 == shown & 0x1000,
        bits & 0x2000 == shown & 0x2000,
        bits & 0x4000 == shown & 0x4000,
        bits & 0x8000 == shown & 0x8000,
        bits & 0x10000 == shown & 0x10000,
        bits & 0x3c00000 == 0,
        bits >> 26 == samples & 0x3f,
        bits & 0x1 == spherical,
        bits & 0x20000 == hdr,
        bits & 0x40000 == atmosphere,
        bits & 0x80000 == environment,
        bits & 0x100000 == shadow,
        (bits & 0x200000 == 0x200000) == (gbuffer != 0),
        (bits & 0x800 == 0x800) == (gbuffer != 0 || shown & 0x800 == 0x800),
{
}

/// Without a debug mode the terrain is lit and drawn smoothly, in full precision.
proof fn default_flags(bits: u32)
    by (bit_vector)
    requires
        bits == 0x800u32 | 0x100 | 0x200 | 0x1000 | 0x2000,
    ensures
        (bits & 0x2 == 0x2) == false,
        (bits & 0x4 == 0x4) == false,
        (bits & 0x8 == 0x8) == false,
        (bits & 0x10 == 0x10) == false,
        (bits & 0x20 == 0x20) == false,
        (bits & 0x40 == 0x40) == false,
        (bits & 0x80 == 0x80) == false,
        (bits & 0x100 == 0x100) == true,
        (bits & 0x200 == 0x200) == true,
        (bits & 0x400 == 0x400) == false,
        (bits & 0x1000 == 0x1000) == true,
        (bits & 0x2000 == 0x2000) == true,
        (bits & 0x4000 == 0x4000) == false,
        (bits & 0x8000 == 0x8000) == false,
        (bits & 0x10000 == 0x10000) == false,
        bits & !0x1fffeu32 == 0,
{
}

/// Every debug setting has its flag on a view; without a debug mode the terrain is morphed and blended,
/// and sampled by gradient and in high precision, and nothing is shown in its place. Four bits below
/// the number of samples are never set, and only six bits of that number are kept.
pub proof fn views_show_what_is_debugged(
    settings: QueueSettings,
    view: QueuedView,
    is_spherical: bool,
)
    requires
        view.msaa_samples >= 1,
    ensures
        ({
            let flags = TerrainPipelineFlags { bits: view_bits(settings, view, is_spherical) };
            &&& flags.has(TerrainPipelineFlags::WIREFRAME) == match settings.debug {
                Some(debug) => debug.wireframe,
                None => false,
            }
            &&& flags.has(TerrainPipelineFlags::SHOW_DATA_LOD) == match settings.debug {
                Some(debug) => debug.show_data_lod,
                None => false,
            }
            &&& flags.has(TerrainPipelineFlags::SHOW_GEOMETRY_LOD) == match settings.debug {
                Some(debug) => debug.show_geometry_lod,
                None => false,
            }
            &&& flags.has(TerrainPipelineFlags::SHOW_TILE_TREE) == match settings.debug {
                Some(debug) => debug.show_tile_tree,
                None => false,
            }
            &&& flags.has(TerrainPipelineFlags::SHOW_PIXELS) == match settings.debug {
                Some(debug) => debug.show_pixels,
                None => false,
            }
            &&& flags.has(TerrainPipelineFlags::SHOW_UV) == match settings.debug {
                Some(debug) => debug.show_uv,
                None => false,
            }
            &&& flags.has(TerrainPipelineFlags::SHOW_NORMALS) == match settings.debug {
                Some(debug) => debug.show_normals,
                None => false,
            }
            &&& flags.has(TerrainPipelineFlags::MORPH) == match settings.debug {
                Some(debug) => debug.morph,
                None => true,
            }
            &&& flags.has(TerrainPipelineFlags::BLEND) == match settings.debug {
                Some(debug) => debug.blend,
                None => true,
            }
            &&& flags.has(TerrainPipelineFlags::TILE_TREE_LOD) == match settings.debug {
                Some(debug) => debug.tile_tree_lod,
                None => false,
            }
            &&& flags.has(TerrainPipelineFlags::SAMPLE_GRAD) == match settings.debug {
                Some(debug) => debug.sample_grad,
                None => true,
            }
            &&& flags.has(TerrainPipelineFlags::HIGH_PRECISION) == match settings.debug {
                Some(debug) => debug.high_precision,
                None => true,
            }
            &&& flags.has(TerrainPipelineFlags::TEST1) == match settings.debug {
                Some(debug) => debug.test1,
                None => false,
            }
            &&& flags.has(TerrainPipelineFlags::TEST2) == match settings.debug {
                Some(debug) => debug.test2,
                None => false,
            }
            &&& flags.has(TerrainPipelineFlags::TEST3) == match settings.debug {
                Some(debug) => debug.test3,
                None => false,
            }
            &&& flags.bits & 0x3c00000 == 0
            &&& flags.samples() == (view.msaa_samples - 1) % 64 + 1
            &&& flags.has(TerrainPipelineFlags::SPHERICAL) == is_spherical
            &&& flags.has(TerrainPipelineFlags::HDR) == view.target_format is Other
            &&& flags.has(TerrainPipelineFlags::ATMOSPHERE) == view.has_atmosphere
            &&& flags.has(TerrainPipelineFlags::ENVIRONMENT_MAP) == view.has_environment_maps
            &&& flags.has(TerrainPipelineFlags::TERRAIN_SHADOW) == settings.terrain_shadow
            &&& flags.has(TerrainPipelineFlags::DEFERRED) == (view.has_deferred_prepass
                && settings.method == Some(OpaqueRendererMethod::Deferred))
        }),
{
    let shown = match settings.debug {
        Some(debug) => debug_bits(debug),
        None => default_bits(),
    };
    match settings.debug {
        Some(debug) => {
            debug_flags_are_independent(debug);
        },
        None => {
            default_flags(shown);
        },
    }
    assert(0x200000u32 | 0x800 == 0x200800) by (bit_vector);
    let bits = view_bits(settings, view, is_spherical);
    let less = (view.msaa_samples - 1) as u32;
    assert((bits >> 26) & 0x3f == bits >> 26 && (less & 0x3f) & 0x3f == less % 64) by (bit_vector);
    shown_flags_are_kept(
        bits,
        less & 0x3f,
        flag_if(is_spherical, 0x1),
        flag_if(view.target_format is Other, 0x20000),
        flag_if(view.has_atmosphere, 0x40000),
        flag_if(view.has_environment_maps, 0x80000),
        flag_if(settings.terrain_shadow, 0x100000),
        shown,
        flag_if(
            renders_deferred(view.has_deferred_prepass, settings.method),
            TerrainPipelineFlags::DEFERRED | TerrainPipelineFlags::LIGHTING,
        ),
    );
}

/// A terrain is drawn on a view exactly if the view has a phase, a shadow filter and buffers for the
/// terrain. Its pipeline has the samples of the view and the filter of its meshes; it draws into the
/// G-buffer where the view has a deferred prepass and opaque materials are deferred, and into the target
/// of the view elsewhere; it draws lines exactly if the debug mode asks for a wireframe; and it has the
/// debug layout exactly if the tile tree is shown and there is no atmosphere.
pub proof fn pipelines_follow_their_view(
    settings: QueueSettings,
    view: QueuedView,
    is_spherical: bool,
    order: Option<u32>,
)
    requires
        1 <= view.msaa_samples <= 64,
    ensures
        ({
            let item = queued(settings, view, is_spherical, order);
            let deferred = view.has_deferred_prepass && settings.method == Some(
                OpaqueRendererMethod::Deferred,
            );
            &&& item is Some <==> view.has_phase && order is Some && view.shadow_filter_method is Some
            &&& item is Some ==> {
                let key = item->Some_0.key;
                &&& Some(item->Some_0.order) == order
                &&& Some(key.shadow_filter_method) == view.shadow_filter_method
                &&& key.flags.samples() == view.msaa_samples
                &&& targets_of(key) is GBuffer <==> deferred
                &&& !deferred ==> targets_of(key) == Targets::View(view.target_format)
                &&& mode_of(key.flags) is Line <==> settings.debug is Some
                    && settings.debug->Some_0.wireframe
                &&& layouts_of(key.flags).len() == 5
                &&& layouts_of(key.flags)[0] is View
                &&& layouts_of(key.flags)[1] is ViewBindingArray
                &&& layouts_of(key.flags)[2] is Terrain
                &&& layouts_of(key.flags)[3] == if settings.debug is Some
                    && settings.debug->Some_0.show_tile_tree && !view.has_atmosphere {
                    Layout::TerrainViewDebug
                } else {
                    Layout::TerrainView
                }
                &&& layouts_of(key.flags)[4] is Material
            }
        }),
{
    view_flags_are_independent(settings, view, is_spherical);
}

} // verus!
