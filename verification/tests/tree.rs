use bevy_terrain::attachment::{
    AttachmentConfig, AttachmentData, AttachmentFormat, AttachmentLabel,
};
use bevy_terrain::coordinate::TileCoordinate;
use bevy_terrain::plugin::TerrainSettings;
use bevy_terrain::terrains::Terrains;
use bevy_terrain::tile_atlas::{
    TerrainConfig, TerrainTileDropped, TerrainTileReady, TileAtlas,
};
use bevy_terrain::tile_tree::{
    refinement_count, LayerDemand, TerrainViewConfig, TileTree, TileTreeEntry, INVALID_ATLAS_INDEX,
};
use bevy_terrain::window::window_origin;

fn tile(lod: u32, x: i32, y: i32) -> TileCoordinate {
    TileCoordinate::new(0, lod, x, y)
}

fn config(lod_count: u32) -> TerrainConfig {
    let mut tiles = Vec::new();
    for lod in 0..lod_count {
        for x in 0..1 << lod {
            for y in 0..1 << lod {
                tiles.push(tile(lod, x, y));
            }
        }
    }
    TerrainConfig {
        path: "terrain".to_string(),
        lod_count,
        attachments: vec![(
            AttachmentLabel::Height,
            AttachmentConfig { format: AttachmentFormat::R8U, ..AttachmentConfig::default() },
        )],
        tiles,
    }
}

fn view_config(tree_size: u32) -> TerrainViewConfig {
    TerrainViewConfig {
        tree_size,
        geometry_tile_count: 100,
        refinement_count: 30,
        grid_size: 16,
        view_lod: 4,
        order: 0,
    }
}

fn atlas(lod_count: u32, atlas_size: u32) -> TileAtlas {
    let settings = TerrainSettings { atlas_size, ..TerrainSettings::default() };
    TileAtlas::new(&config(lod_count), &settings)
}

fn layer(x: i32, y: i32, near: &[bool]) -> LayerDemand {
    LayerDemand { x, y, near: near.to_vec() }
}

fn load(atlas: &mut TileAtlas) -> Vec<TileCoordinate> {
    let mut tiles = Vec::new();
    for load in atlas.take_loads() {
        tiles.push(load.coordinate);
        atlas.tile_loaded(load, AttachmentData::R8U(vec![1]));
    }
    atlas.stage_uploads();
    tiles
}

fn slots(tree: &TileTree) -> Vec<(u32, u32)> {
    tree.entries().iter().map(|entry| (entry.atlas_index, entry.atlas_lod)).collect()
}

const NONE: (u32, u32) = (u32::MAX, u32::MAX);

#[test]
fn new_trees_are_empty() {
    let tree = TileTree::new(&config(2), &view_config(2), 6, None);
    assert_eq!(tree.entries().len(), 48);
    assert_eq!(tree.entry_buffer_size(), 384);
    assert!(tree.entries().iter().all(|entry| *entry == TileTreeEntry::default()));
    assert_eq!(TileTreeEntry::default().atlas_index, INVALID_ATLAS_INDEX);
    assert!(tree.needs_update(false));
    assert!(tree.needs_upload());
    assert_eq!(tree.config().grid_size, 16);
    assert_eq!(tree.refinement_count(), 2);
}

#[test]
fn refinements_cover_the_demand() {
    assert_eq!(refinement_count(30, Some(12), 5), 13);
    assert_eq!(refinement_count(10, Some(12), 5), 10);
    assert_eq!(refinement_count(30, Some(-4), 5), 5);
    assert_eq!(refinement_count(30, None, 5), 5);
    assert_eq!(refinement_count(0, None, 1), 0);
    assert_eq!(refinement_count(u32::MAX, Some(i64::MAX), 1), u32::MAX);
}

#[test]
fn views_request_what_they_want() {
    let mut atlas = atlas(2, 8);
    let mut tree = TileTree::new(&config(2), &view_config(2), 1, None);
    let layers = vec![
        layer(-1, -1, &[false, false, false, false]),
        layer(0, 0, &[true, false, false, true]),
    ];
    tree.refresh_view(true, false, &layers);
    assert!(!tree.needs_update(false));
    assert!(tree.needs_update(true));
    atlas.update(&mut tree);
    let mut requested = load(&mut atlas);
    requested.sort_by_key(|tile| (tile.lod, tile.x, tile.y));
    assert_eq!(requested, vec![tile(0, 0, 0), tile(1, 0, 0), tile(1, 1, 1)]);

    tree.adjust_to_tile_atlas(Some(&atlas), false);
    let root = atlas.get_best_tile(tile(0, 0, 0));
    let first = atlas.get_best_tile(tile(1, 0, 0));
    let last = atlas.get_best_tile(tile(1, 1, 1));
    assert_eq!(root.atlas_lod, 0);
    assert_eq!(first.atlas_lod, 1);
    let root = (root.atlas_index, 0);
    // The tiles of the coarsest level are at columns and rows -1 and 0, which wrap around.
    assert_eq!(
        slots(&tree),
        vec![
            root,
            NONE,
            NONE,
            NONE,
            (first.atlas_index, 1),
            root,
            root,
            (last.atlas_index, 1),
        ]
    );
}

#[test]
fn moving_views_release_and_request() {
    let mut atlas = atlas(3, 16);
    let mut tree = TileTree::new(&config(3), &view_config(2), 1, None);
    let near = [true, true, true, true];
    let at = |x: i32| vec![layer(0, 0, &near), layer(0, 0, &near), layer(x, 0, &near)];
    tree.refresh_view(true, false, &at(0));
    atlas.update(&mut tree);
    assert_eq!(load(&mut atlas).len(), 9);
    tree.refresh_view(true, true, &at(1));
    atlas.update(&mut tree);
    let mut requested = load(&mut atlas);
    requested.sort_by_key(|tile| (tile.x, tile.y));
    assert_eq!(requested, vec![tile(2, 2, 0), tile(2, 2, 1)]);
    // Coming back finds the released tiles in the cache.
    tree.refresh_view(true, true, &at(0));
    atlas.update(&mut tree);
    assert!(load(&mut atlas).is_empty());
    tree.adjust_to_tile_atlas(Some(&atlas), false);
    assert!(slots(&tree)[8..].iter().all(|slot| slot.1 == 2));
}

#[test]
fn resting_views_are_not_updated() {
    let mut atlas = atlas(1, 4);
    let mut tree = TileTree::new(&config(1), &view_config(1), 1, None);
    let layers = vec![layer(0, 0, &[false])];
    tree.refresh_view(true, false, &layers);
    atlas.update(&mut tree);
    tree.adjust_to_tile_atlas(Some(&atlas), false);
    assert_eq!(slots(&tree), vec![NONE]);
    tree.refresh_view(false, false, &Vec::new());
    load(&mut atlas);
    let (ready, dropped) = atlas.emit_tile_events(5);
    // Without a report the entries would not be touched.
    tree.adjust_to_tile_atlas(Some(&atlas), false);
    assert!(!tree.needs_upload());
    assert_eq!(slots(&tree), vec![NONE]);
    let changed = Terrains::changed(&ready, &dropped);
    tree.adjust_to_tile_atlas(Some(&atlas), changed.contains(5));
    assert!(tree.needs_upload());
    assert_eq!(slots(&tree), vec![(0, 0)]);
    tree.refresh_view(true, false, &Vec::new());
    tree.adjust_to_tile_atlas(Some(&atlas), false);
    assert!(tree.needs_upload());
}

#[test]
fn several_views_share_tiles() {
    let mut atlas = atlas(1, 1);
    let mut first = TileTree::new(&config(1), &view_config(1), 1, None);
    let mut second = TileTree::new(&config(1), &view_config(1), 1, None);
    first.refresh_view(true, false, &vec![layer(0, 0, &[true])]);
    second.refresh_view(true, false, &vec![layer(0, 0, &[true])]);
    assert!(atlas.try_update(&mut first));
    assert!(atlas.try_update(&mut second));
    assert_eq!(load(&mut atlas).len(), 1);
    first.refresh_view(true, true, &vec![layer(5, 5, &[true])]);
    assert!(atlas.try_update(&mut first));
    assert_eq!(atlas.get_best_tile(tile(0, 0, 0)).atlas_index, 0);
}

#[test]
fn full_atlases_are_reported() {
    let mut atlas = atlas(2, 2);
    let mut tree = TileTree::new(&config(2), &view_config(2), 1, None);
    let near = [true, true, true, true];
    tree.refresh_view(true, false, &vec![layer(0, 0, &near), layer(0, 0, &near)]);
    assert!(!atlas.try_update(&mut tree));
    // The tiles before the one without a slot have been served.
    assert_eq!(load(&mut atlas), vec![tile(0, 0, 0), tile(1, 0, 0)]);
}

#[test]
fn releases_need_a_request() {
    let mut unknown = atlas(1, 2);
    let mut known = atlas(1, 2);
    let mut tree = TileTree::new(&config(1), &view_config(1), 1, None);
    tree.refresh_view(true, false, &vec![layer(0, 0, &[true])]);
    assert!(known.try_update(&mut tree));
    tree.refresh_view(true, true, &vec![layer(1, 0, &[true])]);
    assert!(!unknown.try_update(&mut tree));
}

#[test]
fn crossing_windows_can_collide() {
    // Six does not divide the range of a machine word, so the columns -4 and 0 share a place.
    let mut tree = TileTree::new(&config(1), &view_config(6), 1, None);
    let near = vec![true; 36];
    tree.refresh_view(true, false, &vec![LayerDemand { x: -5, y: 0, near }]);
    let mut atlas = atlas(1, 4);
    assert!(atlas.try_update(&mut tree));
    assert_eq!(load(&mut atlas), vec![tile(0, 0, 0)]);
}

#[test]
fn terrain_sets_find_what_is_gone() {
    let live = Terrains::collect(&vec![3, 5]);
    assert!(live.contains(3));
    assert!(!live.contains(4));
    assert_eq!(live.despawned_terrains(&vec![1, 3, 4, 5]), vec![1, 4]);
    assert_eq!(
        live.despawned_views(&vec![(3, 1), (4, 3), (5, 9), (1, 5)]),
        vec![(4, 3), (1, 5)]
    );
    let ready = vec![TerrainTileReady { terrain: 1, coordinate: tile(0, 0, 0), atlas_index: 0 }];
    let dropped = vec![TerrainTileDropped { terrain: 2, coordinate: tile(0, 0, 0), atlas_index: 0 }];
    let changed = Terrains::changed(&ready, &dropped);
    assert!(changed.contains(1) && changed.contains(2) && !changed.contains(0));
    assert!(!Terrains::changed(&Vec::new(), &Vec::new()).contains(0));
}

#[test]
fn windows_that_rest_change_nothing() {
    let mut atlas = atlas(2, 8);
    let mut tree = TileTree::new(&config(2), &view_config(2), 1, None);
    let layers = vec![
        layer(-1, -1, &[false, false, false, false]),
        layer(0, 0, &[true, false, true, false]),
    ];
    tree.update(&layers);
    atlas.update(&mut tree);
    assert_eq!(load(&mut atlas).len(), 3);
    tree.update(&layers);
    atlas.update(&mut tree);
    assert!(load(&mut atlas).is_empty());
}

#[test]
fn windows_stay_on_the_face() {
    assert_eq!(window_origin(3, 4, 8), 3);
    assert_eq!(window_origin(-3, 4, 8), 0);
    assert_eq!(window_origin(12, 4, 8), 8);
    assert_eq!(window_origin(i64::MAX, 31, 8), i32::MAX - 7);
}

#[test]
fn wide_windows_end_with_the_face() {
    assert_eq!(window_origin(-4, 0, 8), -7);
    assert_eq!(window_origin(0, 0, 8), -7);
    assert_eq!(window_origin(9, 2, 8), -4);
}

#[test]
fn window_origins_saturate() {
    assert_eq!(window_origin(0, 0, u32::MAX), i32::MIN);
    assert_eq!(window_origin(i64::MAX, 32, 8), i32::MAX);
    assert_eq!(window_origin(5, 1000, 8), 5);
    assert_eq!(window_origin(i64::MAX, 1000, 8), i32::MAX);
    assert_eq!(window_origin(i64::MIN, 1000, 8), 0);
}

#[test]
fn resting_trees_need_no_atlas() {
    let mut tree = TileTree::new(&config(1), &view_config(1), 1, None);
    let atlas = atlas(1, 1);
    assert!(tree.needs_adjustment(false));
    tree.refresh_view(true, false, &vec![layer(0, 0, &[true])]);
    tree.adjust_to_tile_atlas(Some(&atlas), false);
    tree.refresh_view(false, false, &Vec::new());
    assert!(!tree.needs_adjustment(false));
    assert!(tree.needs_adjustment(true));
    assert!(tree.needs_upload());
    tree.adjust_to_tile_atlas(None, false);
    assert!(!tree.needs_upload());
}

#[test]
fn trees_can_be_empty() {
    let mut tree = TileTree::new(&config(2), &view_config(0), 6, None);
    assert_eq!(tree.entry_buffer_size(), 0);
    let layers = (0..12).map(|_| layer(0, 0, &[])).collect();
    tree.refresh_view(true, false, &layers);
    let mut atlas = atlas(2, 4);
    atlas.update(&mut tree);
    tree.adjust_to_tile_atlas(Some(&atlas), true);
    assert!(load(&mut atlas).is_empty());
    assert!(tree.entries().is_empty());
}
