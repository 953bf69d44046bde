use bevy_terrain::attachment::AttachmentLabel;
use bevy_terrain::picking::picking_readback;
use bevy_terrain::plugin::TerrainSettings;
use bevy_terrain::shaders::load_bindings_shader;
use bevy_terrain::terrain_material::{
    queue_terrain, specialize, terrain_renders_deferred, ColorFormat, DebugTerrain, Layout,
    OpaqueRendererMethod, PolygonMode, QueueSettings, QueuedView, ShadowFilterMethod, Targets,
    TerrainPipelineFlags, TerrainPipelineKey,
};
use bevy_terrain::terrain_pass::{
    depth_copy_shader_defs, extract_terrain_phases, prepare_terrain_depth_textures,
    prepare_terrain_motion_bind_group, sort_key, terrain_deferred_pass, terrain_motion_pass,
    terrain_pass, CameraState, MotionBindGroupStep, MotionSteps, PassView, TargetStep, TargetView,
    TerrainTargets,
};
use bevy_terrain::terrain_shadow::{
    creates_view_bind_group, dominant_light, seed_texels, shadow_enabled, shadow_lod,
    terrain_shadow_pass, ShadowState, TerrainShadowPipelineKey, NO_OCCLUDER_F16_BITS,
};
use bevy_terrain::terrain_view_bind_group::{
    use_debug_layout, vertices_per_row, vertices_per_tile, BindGroupStep, PrepassBinding,
    PrepassBuffers, TerrainViewBinding,
};

const DEFERRED: Option<OpaqueRendererMethod> = Some(OpaqueRendererMethod::Deferred);
const FORWARD: Option<OpaqueRendererMethod> = Some(OpaqueRendererMethod::Forward);

#[test]
fn no_occluder_bits_match_sentinel() {
    assert_eq!(half::f16::from_f32(-60000.0).to_bits(), NO_OCCLUDER_F16_BITS);
}

fn no_debug() -> DebugTerrain {
    DebugTerrain {
        wireframe: false,
        show_data_lod: false,
        show_geometry_lod: false,
        show_tile_tree: false,
        show_pixels: false,
        show_uv: false,
        show_normals: false,
        morph: false,
        blend: false,
        tile_tree_lod: false,
        lighting: false,
        sample_grad: false,
        high_precision: false,
        test1: false,
        test2: false,
        test3: false,
    }
}

fn view() -> QueuedView {
    QueuedView {
        has_phase: true,
        shadow_filter_method: Some(ShadowFilterMethod::Gaussian),
        msaa_samples: 1,
        target_format: ColorFormat::Rgba8UnormSrgb,
        has_atmosphere: false,
        has_environment_maps: false,
        has_deferred_prepass: false,
    }
}

fn settings() -> QueueSettings {
    QueueSettings { debug: None, terrain_shadow: false, method: FORWARD }
}

#[test]
fn samples_round_trip() {
    for samples in 1..=64 {
        assert_eq!(TerrainPipelineFlags::from_msaa_samples(samples).msaa_samples(), samples);
    }
    assert_eq!(TerrainPipelineFlags::from_msaa_samples(4).bits, 3 << 26);
    assert_eq!(TerrainPipelineFlags::from_msaa_samples(65).msaa_samples(), 1);
}

#[test]
fn debug_settings_have_flags() {
    assert_eq!(TerrainPipelineFlags::from_debug(&no_debug()).bits, 0);
    let debug = DebugTerrain { wireframe: true, lighting: true, test3: true, ..no_debug() };
    let flags = TerrainPipelineFlags::from_debug(&debug);
    assert_eq!(flags.bits, (1 << 1) | (1 << 11) | (1 << 16));
    assert_eq!(flags.polygon_mode(), PolygonMode::Line);
    assert_eq!(flags.shader_defs(), vec!["LIGHTING", "TEST3"]);
    assert_eq!(TerrainPipelineFlags { bits: 0 }.polygon_mode(), PolygonMode::Fill);
}

#[test]
fn all_flags_have_definitions() {
    let flags = TerrainPipelineFlags { bits: 0x3fffff };
    assert_eq!(
        flags.shader_defs(),
        vec![
            "SPHERICAL",
            "SHOW_DATA_LOD",
            "SHOW_GEOMETRY_LOD",
            "SHOW_TILE_TREE",
            "SHOW_PIXELS",
            "SHOW_UV",
            "SHOW_NORMALS",
            "MORPH",
            "BLEND",
            "TILE_TREE_LOD",
            "LIGHTING",
            "SAMPLE_GRAD",
            "HIGH_PRECISION",
            "TEST1",
            "TEST2",
            "TEST3",
            "HDR",
            "ATMOSPHERE",
            "ENVIRONMENT_MAP",
            "TERRAIN_SHADOW",
            "DEFERRED_PREPASS",
        ]
    );
}

#[test]
fn deferred_rendering_needs_prepass_and_method() {
    assert!(terrain_renders_deferred(true, DEFERRED));
    assert!(!terrain_renders_deferred(false, DEFERRED));
    assert!(!terrain_renders_deferred(true, FORWARD));
    assert!(!terrain_renders_deferred(true, Some(OpaqueRendererMethod::Auto)));
    assert!(!terrain_renders_deferred(true, None));
}

#[test]
fn terrains_are_queued() {
    let item = queue_terrain(&settings(), &view(), false, Some(9)).unwrap();
    assert_eq!(item.order, 9);
    assert_eq!(item.key.shadow_filter_method, ShadowFilterMethod::Gaussian);
    assert_eq!(item.key.color_target_format, ColorFormat::Rgba8UnormSrgb);
    assert_eq!(
        item.key.flags.shader_defs(),
        vec!["MORPH", "BLEND", "LIGHTING", "SAMPLE_GRAD", "HIGH_PRECISION"]
    );
    assert!(queue_terrain(&settings(), &view(), false, None).is_none());
    let unprepared = QueuedView { shadow_filter_method: None, ..view() };
    assert!(queue_terrain(&settings(), &unprepared, false, Some(0)).is_none());
    let inactive = QueuedView { has_phase: false, ..view() };
    assert!(queue_terrain(&settings(), &inactive, false, Some(0)).is_none());
}

#[test]
fn deferred_terrains_are_lit() {
    let unlit = QueueSettings { debug: Some(no_debug()), terrain_shadow: true, method: DEFERRED };
    let deferred = QueuedView {
        msaa_samples: 4,
        target_format: ColorFormat::Other,
        has_atmosphere: true,
        has_environment_maps: true,
        has_deferred_prepass: true,
        ..view()
    };
    let flags = queue_terrain(&unlit, &deferred, true, Some(0)).unwrap().key.flags;
    assert_eq!(flags.msaa_samples(), 4);
    assert_eq!(
        flags.shader_defs(),
        vec![
            "SPHERICAL",
            "LIGHTING",
            "HDR",
            "ATMOSPHERE",
            "ENVIRONMENT_MAP",
            "TERRAIN_SHADOW",
            "DEFERRED_PREPASS"
        ]
    );
    let flags = queue_terrain(&unlit, &view(), false, Some(0)).unwrap().key.flags;
    assert!(!flags.contains(TerrainPipelineFlags::LIGHTING));
}

#[test]
fn pipelines_follow_their_key() {
    let key = TerrainPipelineKey {
        flags: TerrainPipelineFlags { bits: TerrainPipelineFlags::MORPH | (3 << 26) },
        color_target_format: ColorFormat::Other,
        shadow_filter_method: ShadowFilterMethod::Hardware2x2,
    };
    let plan = specialize(&key, true);
    let shared = vec![
        "MORPH",
        "MULTISAMPLED",
        "MULTIPLE_LIGHT_PROBES_IN_ARRAY",
        "SHADOW_FILTER_METHOD_HARDWARE_2X2",
    ];
    assert_eq!(plan.vertex_defs, [shared.clone(), vec!["VERTEX"]].concat());
    assert_eq!(plan.fragment_defs, [shared, vec!["FRAGMENT"]].concat());
    assert_eq!(plan.targets, Targets::View(ColorFormat::Other));
    assert_eq!(plan.polygon_mode, PolygonMode::Fill);
    assert_eq!(plan.samples, 4);
    assert_eq!(
        plan.layouts,
        vec![
            Layout::View,
            Layout::ViewBindingArray,
            Layout::Terrain,
            Layout::TerrainView,
            Layout::Material
        ]
    );

    let shown = TerrainPipelineFlags::SHOW_TILE_TREE | TerrainPipelineFlags::DEFERRED;
    let key = TerrainPipelineKey {
        flags: TerrainPipelineFlags { bits: shown },
        shadow_filter_method: ShadowFilterMethod::Other,
        ..key
    };
    let plan = specialize(&key, false);
    assert_eq!(plan.layouts[3], Layout::TerrainViewDebug);
    assert_eq!(plan.targets, Targets::GBuffer);
    assert_eq!(plan.fragment_defs, vec!["SHOW_TILE_TREE", "DEFERRED_PREPASS", "FRAGMENT"]);
    let flags = TerrainPipelineFlags { bits: shown | TerrainPipelineFlags::ATMOSPHERE };
    let plan = specialize(&TerrainPipelineKey { flags, ..key }, false);
    assert_eq!(plan.layouts[3], Layout::TerrainView);
    let temporal = TerrainPipelineKey { shadow_filter_method: ShadowFilterMethod::Temporal, ..key };
    assert!(specialize(&temporal, false).vertex_defs.contains(&"SHADOW_FILTER_METHOD_TEMPORAL"));
    let gaussian = TerrainPipelineKey { shadow_filter_method: ShadowFilterMethod::Gaussian, ..key };
    assert!(specialize(&gaussian, false).vertex_defs.contains(&"SHADOW_FILTER_METHOD_GAUSSIAN"));
}

#[test]
fn higher_orders_come_first() {
    assert_eq!(sort_key(0), u32::MAX);
    assert_eq!(sort_key(u32::MAX), 0);
    assert!(sort_key(5) < sort_key(4));
}

#[test]
fn active_cameras_get_phases() {
    let cameras = vec![
        CameraState { camera: 1, is_active: true },
        CameraState { camera: 2, is_active: false },
        CameraState { camera: 3, is_active: true },
    ];
    assert_eq!(extract_terrain_phases(&cameras), vec![1, 3]);
}

#[test]
fn targets_follow_their_view() {
    let views = vec![
        TargetView { physical_target_size: None, samples: 1, has_deferred_prepass: true },
        TargetView { physical_target_size: Some((8, 6)), samples: 4, has_deferred_prepass: true },
        TargetView { physical_target_size: Some((8, 6)), samples: 1, has_deferred_prepass: true },
    ];
    let targets = |samples: u32, deferred: bool| {
        TargetStep::Provide(TerrainTargets {
            width: 8,
            height: 6,
            samples,
            multisampled: samples > 1,
            deferred,
        })
    };
    assert_eq!(
        prepare_terrain_depth_textures(true, &views, DEFERRED),
        vec![TargetStep::Keep, targets(4, false), targets(1, true)]
    );
    assert_eq!(prepare_terrain_depth_textures(true, &views, FORWARD)[2], targets(1, false));
    assert_eq!(prepare_terrain_depth_textures(false, &views, DEFERRED), vec![TargetStep::Remove; 3]);
    assert_eq!(depth_copy_shader_defs(1), Vec::<&str>::new());
    assert_eq!(depth_copy_shader_defs(4), vec!["MULTISAMPLED"]);
}

fn pass_view() -> PassView {
    PassView {
        has_deferred_prepass: true,
        has_deferred_targets: true,
        item_count: Some(1),
        copy_pipeline_ready: true,
        composite_pipeline_ready: true,
        motion_pipeline_ready: true,
        has_gbuffer: true,
        has_motion_vectors: true,
        has_prepass_depth: true,
    }
}

#[test]
fn terrains_are_drawn_by_one_pass() {
    let view = pass_view();
    assert!(terrain_pass(&view, FORWARD) && !terrain_deferred_pass(&view, FORWARD));
    assert!(!terrain_pass(&view, DEFERRED) && terrain_deferred_pass(&view, DEFERRED));
    for item_count in [None, Some(0)] {
        let empty = PassView { item_count, ..view };
        assert!(!terrain_pass(&empty, FORWARD) && !terrain_deferred_pass(&empty, DEFERRED));
    }
    assert!(!terrain_pass(&PassView { copy_pipeline_ready: false, ..view }, FORWARD));
    assert!(!terrain_deferred_pass(&PassView { composite_pipeline_ready: false, ..view }, DEFERRED));
    assert!(!terrain_deferred_pass(&PassView { has_deferred_targets: false, ..view }, DEFERRED));
    assert!(!terrain_deferred_pass(&PassView { has_gbuffer: false, ..view }, DEFERRED));
}

#[test]
fn motion_follows_the_drawing() {
    let view = pass_view();
    let both = MotionSteps { restage_depth: true, write_motion: true };
    let nothing = MotionSteps { restage_depth: false, write_motion: false };
    assert_eq!(terrain_motion_pass(&view, FORWARD), both);
    assert_eq!(terrain_motion_pass(&view, DEFERRED), both);
    let uncopied = PassView { copy_pipeline_ready: false, ..view };
    assert_eq!(terrain_motion_pass(&uncopied, FORWARD), nothing);
    assert_eq!(terrain_motion_pass(&uncopied, DEFERRED), both);
    let untargeted = PassView { has_deferred_targets: false, ..view };
    assert_eq!(terrain_motion_pass(&untargeted, DEFERRED), nothing);
    assert_eq!(terrain_motion_pass(&untargeted, FORWARD), both);
    let still = PassView { has_motion_vectors: false, ..view };
    assert_eq!(terrain_motion_pass(&still, FORWARD), nothing);
    let compiling = PassView { motion_pipeline_ready: false, ..view };
    assert_eq!(
        terrain_motion_pass(&compiling, FORWARD),
        MotionSteps { restage_depth: true, write_motion: false }
    );
    let flat = PassView { has_prepass_depth: false, ..view };
    assert_eq!(
        terrain_motion_pass(&flat, FORWARD),
        MotionSteps { restage_depth: false, write_motion: true }
    );
    assert_eq!(prepare_terrain_motion_bind_group(true, true, true), MotionBindGroupStep::Remove);
    assert_eq!(prepare_terrain_motion_bind_group(false, true, true), MotionBindGroupStep::Create);
    assert_eq!(prepare_terrain_motion_bind_group(false, true, false), MotionBindGroupStep::Keep);
    assert_eq!(prepare_terrain_motion_bind_group(false, false, true), MotionBindGroupStep::Keep);
}

#[test]
fn shadow_maps_start_lit() {
    let texels = seed_texels(3);
    assert_eq!(texels.len(), 72);
    for texel in texels.chunks(8) {
        assert_eq!(texel, [0x53, 0xfb, 0, 0, 0, 0, 0, 0]);
    }
    assert!(seed_texels(0).is_empty());
}

#[test]
fn shadow_maps_are_covered_by_groups() {
    let shadow = ShadowState {
        map_size: 512,
        pipeline_ready: true,
        has_view_bind_group: true,
        has_terrain_bind_group: true,
    };
    assert_eq!(terrain_shadow_pass(true, &shadow), Some(64));
    assert_eq!(terrain_shadow_pass(true, &ShadowState { map_size: 513, ..shadow }), Some(65));
    assert_eq!(terrain_shadow_pass(false, &shadow), None);
    assert_eq!(terrain_shadow_pass(true, &ShadowState { pipeline_ready: false, ..shadow }), None);
    assert_eq!(terrain_shadow_pass(true, &ShadowState { has_view_bind_group: false, ..shadow }), None);
    assert_eq!(
        terrain_shadow_pass(true, &ShadowState { has_terrain_bind_group: false, ..shadow }),
        None
    );
    assert!(creates_view_bind_group(false, true));
    assert!(!creates_view_bind_group(true, true));
    assert!(!creates_view_bind_group(false, false));
    assert_eq!(TerrainShadowPipelineKey { spherical: false }.shader_defs(), vec!["SHADOW_COMPUTE"]);
    assert_eq!(
        TerrainShadowPipelineKey { spherical: true }.shader_defs(),
        vec!["SHADOW_COMPUTE", "SPHERICAL"]
    );
}

#[test]
fn brightest_light_dominates() {
    let lights = |values: &[f32]| values.iter().map(|value| value.to_bits()).collect::<Vec<u32>>();
    assert_eq!(dominant_light(&lights(&[])), None);
    assert_eq!(dominant_light(&lights(&[10.0, 100000.0, 0.5])), Some(1));
    assert_eq!(dominant_light(&lights(&[3.0, 3.0, 1.0])), Some(1));
    assert_eq!(dominant_light(&lights(&[-2.0, -1.0, -3.0])), Some(1));
    assert_eq!(dominant_light(&lights(&[0.0, -0.0])), Some(0));
    assert_eq!(dominant_light(&lights(&[f32::INFINITY, f32::NAN, 1.0])), Some(1));
    let values = [1.5, -7.0, f32::NEG_INFINITY, 0.0, 8.25, -0.0, 8.25, f32::MIN_POSITIVE];
    let expected = values
        .iter()
        .enumerate()
        .max_by(|(_, a), (_, b)| a.total_cmp(b))
        .map(|(index, _)| index);
    assert_eq!(dominant_light(&lights(&values)), expected);
}

#[test]
fn shadow_lods_are_clamped() {
    assert_eq!(shadow_lod(Some(5), Some(3), 10), 3);
    assert_eq!(shadow_lod(Some(2), Some(3), 10), 2);
    assert_eq!(shadow_lod(Some(20), Some(30), 10), 9);
    assert_eq!(shadow_lod(Some(-2), Some(3), 10), 0);
    assert_eq!(shadow_lod(None, Some(3), 10), 3);
    assert_eq!(shadow_lod(Some(4), None, 10), 4);
    assert_eq!(shadow_lod(None, None, 10), 0);
    assert_eq!(shadow_enabled(true, Some(0)), 1);
    assert_eq!(shadow_enabled(true, None), 0);
    assert_eq!(shadow_enabled(false, Some(0)), 0);
}

#[test]
fn tiles_consist_of_rows() {
    assert_eq!(vertices_per_row(16), 36);
    assert_eq!(vertices_per_tile(16), 576);
    assert_eq!(vertices_per_tile(0), 0);
}

#[test]
fn bind_groups_are_kept_up_to_date() {
    assert!(use_debug_layout(true, &vec![false, false]));
    assert!(!use_debug_layout(true, &vec![false, true]));
    assert!(!use_debug_layout(false, &vec![false]));

    let mut binding = TerrainViewBinding { debug_layout: None };
    assert_eq!(binding.prepare_terrain_view(true, false), BindGroupStep::Create);
    assert_eq!(binding.prepare_terrain_view(true, false), BindGroupStep::Keep);
    assert_eq!(binding.prepare_terrain_view(true, true), BindGroupStep::Create);
    assert_eq!(binding.prepare_terrain_view(false, true), BindGroupStep::Clear);
    assert_eq!(binding.prepare_terrain_view(true, true), BindGroupStep::Create);

    let buffers = PrepassBuffers { terrain_view: 1, approximate_height: 2, tile_tree: 3 };
    let moved = PrepassBuffers { tile_tree: 4, ..buffers };
    let mut binding = PrepassBinding { buffers: None };
    assert_eq!(binding.prepare_refine_tiles(None), BindGroupStep::Clear);
    assert_eq!(binding.prepare_refine_tiles(Some(buffers)), BindGroupStep::Create);
    assert_eq!(binding.prepare_refine_tiles(Some(buffers)), BindGroupStep::Keep);
    assert_eq!(binding.prepare_refine_tiles(Some(moved)), BindGroupStep::Create);
    assert_eq!(binding.prepare_refine_tiles(None), BindGroupStep::Clear);
}

#[test]
fn bindings_are_named_after_attachments() {
    let settings = TerrainSettings::new(vec!["albedo"]);
    assert_eq!(settings.atlas_size, 1028);
    assert_eq!(
        settings.attachments,
        vec![AttachmentLabel::Height, AttachmentLabel::Custom("albedo".to_string())]
    );
    let source = "var {0}; var {1}; use {0}, {1}, {2}; keep {0} {8}; {2} {2} {7}";
    assert_eq!(
        load_bindings_shader(source, &settings.attachments),
        "var height; var albedo; use height, albedo, empty_c; keep {0} {8}; empty_c {2} empty_h"
    );
    assert_eq!(load_bindings_shader("", &Vec::new()), "");
}

#[test]
fn picking_reports_are_read() {
    let mut bytes: Vec<u8> = Vec::new();
    for value in [0.25f32, 0.75, 0.5] {
        bytes.extend(value.to_ne_bytes());
    }
    bytes.extend(255u32.to_ne_bytes());
    for i in 0..16 {
        bytes.extend((i as f32).to_ne_bytes());
    }
    for value in [-1i32, 2, 3, 0] {
        bytes.extend(value.to_ne_bytes());
    }
    bytes.extend([9, 9, 9]);
    let record = picking_readback(&bytes);
    assert_eq!(record.cursor_coords, [0.25f32.to_bits(), 0.75f32.to_bits()]);
    assert_eq!(f32::from_bits(record.depth), 0.5);
    assert_eq!(record.stencil, 255);
    assert_eq!(record.world_from_clip[15], 15.0f32.to_bits());
    assert_eq!(record.cell.map(|value| value as i32), [-1, 2, 3]);
    assert!(record.hits_terrain());
    for (depth, hit) in [(0.0f32, false), (-0.0, false), (-1.0, false), (f32::NAN, false), (1.0, true)] {
        bytes[8..12].copy_from_slice(&depth.to_ne_bytes());
        assert_eq!(picking_readback(&bytes).hits_terrain(), hit);
        assert_eq!(depth > 0.0, hit);
    }
}
