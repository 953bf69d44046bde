use bevy_terrain::attachment::{
    AttachmentConfig, AttachmentData, AttachmentFormat, AttachmentLabel, AttachmentTile,
    AttachmentTileWithData,
};
use bevy_terrain::coordinate::TileCoordinate;
use bevy_terrain::plugin::TerrainSettings;
use bevy_terrain::tile_atlas::{TerrainConfig, TileAtlas, UPLOAD_BUDGET_BYTES};
use bevy_terrain::tile_tree::{INVALID_ATLAS_INDEX, INVALID_LOD};

fn tile(lod: u32, x: i32, y: i32) -> TileCoordinate {
    TileCoordinate::new(0, lod, x, y)
}

fn atlas(attachments: usize, atlas_size: u32) -> TileAtlas {
    let names = ["height", "albedo", "normal"];
    let mut tiles = vec![tile(0, 0, 0)];
    for x in 0..2 {
        for y in 0..2 {
            tiles.push(tile(1, x, y));
        }
    }
    tiles.push(tile(2, 3, 1));
    let config = TerrainConfig {
        path: "assets/terrains/test".to_string(),
        lod_count: 3,
        attachments: (0..attachments)
            .map(|i| {
                let label = names[i].parse::<AttachmentLabel>().unwrap();
                (label, AttachmentConfig { format: AttachmentFormat::R8U, ..AttachmentConfig::default() })
            })
            .collect(),
        tiles,
    };
    let settings = TerrainSettings { atlas_size, ..TerrainSettings::default() };
    TileAtlas::new(&config, &settings)
}

fn load(atlas: &mut TileAtlas) {
    for load in atlas.take_loads() {
        atlas.tile_loaded(load, AttachmentData::R8U(vec![1, 2, 3]));
    }
}

fn uploads(atlas: &mut TileAtlas) -> Vec<AttachmentTileWithData> {
    let mut tiles = Vec::new();
    atlas.swap_uploading_tiles(&mut tiles);
    tiles
}

fn best(atlas: &TileAtlas, tile: TileCoordinate) -> Option<(u32, u32)> {
    let entry = atlas.get_best_tile(tile);
    if entry.atlas_index == INVALID_ATLAS_INDEX {
        assert_eq!(entry.atlas_lod, INVALID_LOD);
        None
    } else {
        Some((entry.atlas_index, entry.atlas_lod))
    }
}

#[test]
fn new_atlas_serves_nothing() {
    let atlas = atlas(2, 4);
    assert_eq!(best(&atlas, tile(0, 0, 0)), None);
    assert_eq!(best(&atlas, tile(1, 1, 1)), None);
    assert_eq!(atlas.lod_count(), 3);
    let height = atlas.attachment(&AttachmentLabel::Height).unwrap();
    assert_eq!(height.path, "terrains/test");
    assert_eq!(height.center_size, 508);
    assert!(atlas.attachment(&AttachmentLabel::Custom("normal".to_string())).is_none());
}

#[test]
fn requests_issue_loads_for_every_attachment() {
    let mut atlas = atlas(3, 4);
    atlas.request_tile(tile(1, 0, 1));
    let loads = atlas.take_loads();
    let mut names: Vec<String> = loads.iter().map(|load| load.label.name()).collect();
    names.sort();
    assert_eq!(names, vec!["albedo", "height", "normal"]);
    for load in &loads {
        assert_eq!(load.coordinate, tile(1, 0, 1));
        assert_eq!(load.generation, 1);
    }
    assert!(atlas.take_loads().is_empty());
}

#[test]
fn unknown_tiles_are_ignored() {
    let mut atlas = atlas(1, 1);
    atlas.request_tile(tile(1, -1, 0));
    atlas.release_tile(tile(1, -1, 0));
    assert!(atlas.take_loads().is_empty());
    assert_eq!(best(&atlas, tile(1, -1, 0)), None);
}

#[test]
fn tiles_become_ready_with_their_last_attachment() {
    let mut atlas = atlas(2, 4);
    atlas.request_tile(tile(0, 0, 0));
    let mut loads = atlas.take_loads();
    let last = loads.pop().unwrap();
    for load in loads {
        atlas.tile_loaded(load, AttachmentData::R8U(vec![1]));
    }
    atlas.stage_uploads();
    assert_eq!(uploads(&mut atlas).len(), 1);
    assert_eq!(best(&atlas, tile(0, 0, 0)), None);
    let (ready, dropped) = atlas.emit_tile_events(7);
    assert!(ready.is_empty() && dropped.is_empty());

    let label = last.label.clone();
    atlas.tile_loaded(last, AttachmentData::R8U(vec![2]));
    assert_eq!(best(&atlas, tile(0, 0, 0)), None);
    atlas.stage_uploads();
    let staged = uploads(&mut atlas);
    assert_eq!(staged.len(), 1);
    assert_eq!(staged[0].atlas_index, 0);
    assert_eq!(staged[0].label, label);
    assert_eq!(staged[0].data.bytes(), &[2]);
    assert_eq!(best(&atlas, tile(0, 0, 0)), Some((0, 0)));
    let (ready, dropped) = atlas.emit_tile_events(7);
    assert_eq!(ready.len(), 1);
    assert_eq!(ready[0].terrain, 7);
    assert_eq!(ready[0].coordinate, tile(0, 0, 0));
    assert_eq!(ready[0].atlas_index, 0);
    assert!(dropped.is_empty());
    let (ready, dropped) = atlas.emit_tile_events(7);
    assert!(ready.is_empty() && dropped.is_empty());
}

#[test]
fn best_tile_is_the_finest_loaded() {
    let mut atlas = atlas(1, 4);
    atlas.request_tile(tile(0, 0, 0));
    atlas.request_tile(tile(1, 1, 0));
    load(&mut atlas);
    atlas.stage_uploads();
    assert_eq!(best(&atlas, tile(2, 3, 1)), Some((1, 1)));
    assert_eq!(best(&atlas, tile(1, 1, 0)), Some((1, 1)));
    assert_eq!(best(&atlas, tile(1, 0, 0)), Some((0, 0)));
    assert_eq!(best(&atlas, tile(2, 0, 0)), None);
    atlas.request_tile(tile(2, 3, 1));
    assert_eq!(best(&atlas, tile(2, 3, 1)), Some((1, 1)));
    load(&mut atlas);
    atlas.stage_uploads();
    assert_eq!(best(&atlas, tile(2, 3, 1)), Some((2, 2)));
}

#[test]
fn released_tiles_stay_cached() {
    let mut atlas = atlas(1, 2);
    atlas.request_tile(tile(0, 0, 0));
    load(&mut atlas);
    atlas.stage_uploads();
    atlas.release_tile(tile(0, 0, 0));
    assert_eq!(best(&atlas, tile(0, 0, 0)), Some((0, 0)));
    atlas.request_tile(tile(0, 0, 0));
    assert!(atlas.take_loads().is_empty());
    assert_eq!(best(&atlas, tile(0, 0, 0)), Some((0, 0)));
    // The slot is in use again, so the next tile gets the other one.
    atlas.request_tile(tile(1, 0, 0));
    load(&mut atlas);
    atlas.stage_uploads();
    assert_eq!(best(&atlas, tile(1, 0, 0)), Some((1, 1)));
}

#[test]
fn longest_unused_slot_is_taken_first() {
    let mut atlas = atlas(1, 3);
    for x in 0..2 {
        atlas.request_tile(tile(1, x, 0));
    }
    atlas.request_tile(tile(1, 0, 1));
    load(&mut atlas);
    atlas.stage_uploads();
    atlas.emit_tile_events(0);
    atlas.release_tile(tile(1, 1, 0));
    atlas.release_tile(tile(1, 0, 0));
    atlas.request_tile(tile(1, 1, 1));
    let (ready, dropped) = atlas.emit_tile_events(3);
    assert!(ready.is_empty());
    assert_eq!(dropped.len(), 1);
    assert_eq!(dropped[0].terrain, 3);
    assert_eq!(dropped[0].coordinate, tile(1, 1, 0));
    assert_eq!(dropped[0].atlas_index, 1);
    assert_eq!(best(&atlas, tile(1, 1, 0)), None);
    assert_eq!(best(&atlas, tile(1, 0, 0)), Some((0, 1)));
    assert_eq!(best(&atlas, tile(1, 0, 1)), Some((2, 1)));
}

#[test]
fn loads_of_evicted_tiles_are_discarded() {
    let mut atlas = atlas(1, 1);
    atlas.request_tile(tile(0, 0, 0));
    let stale = atlas.take_loads();
    atlas.release_tile(tile(0, 0, 0));
    atlas.request_tile(tile(1, 0, 0));
    atlas.release_tile(tile(1, 0, 0));
    atlas.request_tile(tile(0, 0, 0));
    let loads = atlas.take_loads();
    assert_eq!(loads.len(), 2);
    assert_eq!(loads[1].generation, 3);
    for load in stale {
        assert_eq!(load.generation, 1);
        atlas.tile_loaded(load, AttachmentData::R8U(vec![9]));
    }
    atlas.stage_uploads();
    assert!(uploads(&mut atlas).is_empty());
    assert_eq!(best(&atlas, tile(0, 0, 0)), None);
    for load in loads {
        atlas.tile_loaded(load, AttachmentData::R8U(vec![8]));
    }
    atlas.stage_uploads();
    let staged = uploads(&mut atlas);
    assert_eq!(staged.len(), 1);
    assert_eq!(staged[0].data.bytes(), &[8]);
    assert_eq!(best(&atlas, tile(0, 0, 0)), Some((0, 0)));
}

#[test]
fn waiting_attachments_go_with_their_tile() {
    let mut atlas = atlas(1, 1);
    atlas.request_tile(tile(0, 0, 0));
    load(&mut atlas);
    atlas.release_tile(tile(0, 0, 0));
    atlas.request_tile(tile(1, 0, 0));
    atlas.stage_uploads();
    assert!(uploads(&mut atlas).is_empty());
    let (ready, dropped) = atlas.emit_tile_events(0);
    assert!(ready.is_empty() && dropped.is_empty());
}

#[test]
fn staging_keeps_the_budget() {
    let mut atlas = atlas(3, 4);
    atlas.request_tile(tile(0, 0, 0));
    let loads = atlas.take_loads();
    let order: Vec<AttachmentLabel> = loads.iter().map(|load| load.label.clone()).collect();
    let sizes = [UPLOAD_BUDGET_BYTES - 1, 1, 5];
    for (load, size) in loads.into_iter().zip(sizes) {
        atlas.tile_loaded(load, AttachmentData::R8U(vec![0; size]));
    }
    atlas.stage_uploads();
    let staged = uploads(&mut atlas);
    assert_eq!(staged.len(), 2);
    assert_eq!(staged[0].label, order[0]);
    assert_eq!(staged[1].label, order[1]);
    assert_eq!(best(&atlas, tile(0, 0, 0)), None);
    atlas.stage_uploads();
    let staged = uploads(&mut atlas);
    assert_eq!(staged.len(), 1);
    assert_eq!(staged[0].label, order[2]);
    assert_eq!(best(&atlas, tile(0, 0, 0)), Some((0, 0)));
}

#[test]
fn staging_stops_before_the_budget_is_exceeded() {
    let mut atlas = atlas(3, 4);
    atlas.request_tile(tile(0, 0, 0));
    let sizes = [5 * 1024 * 1024, 5 * 1024 * 1024, 1024];
    for (load, size) in atlas.take_loads().into_iter().zip(sizes) {
        atlas.tile_loaded(load, AttachmentData::R8U(vec![0; size]));
    }
    atlas.stage_uploads();
    assert_eq!(uploads(&mut atlas).len(), 1);
    atlas.stage_uploads();
    assert_eq!(uploads(&mut atlas).len(), 2);
}

#[test]
fn nothing_follows_an_oversized_attachment() {
    let mut atlas = atlas(2, 4);
    atlas.request_tile(tile(0, 0, 0));
    let sizes = [UPLOAD_BUDGET_BYTES + 1, 0];
    for (load, size) in atlas.take_loads().into_iter().zip(sizes) {
        atlas.tile_loaded(load, AttachmentData::R8U(vec![0; size]));
    }
    atlas.stage_uploads();
    assert_eq!(uploads(&mut atlas).len(), 1);
    atlas.stage_uploads();
    assert_eq!(uploads(&mut atlas).len(), 1);
}

#[test]
fn loads_are_issued_in_the_order_of_the_requests() {
    let mut atlas = atlas(2, 4);
    atlas.request_tile(tile(0, 0, 0));
    atlas.request_tile(tile(1, 0, 0));
    atlas.request_tile(tile(0, 0, 0));
    let issued: Vec<_> =
        atlas.take_loads().iter().map(|load| (load.coordinate, load.generation)).collect();
    let first = (tile(0, 0, 0), 1);
    let second = (tile(1, 0, 0), 2);
    assert_eq!(issued, vec![first, first, second, second]);
}

#[test]
fn loads_can_be_copied() {
    let load = AttachmentTile::default();
    assert_eq!(load.coordinate, tile(0, 0, 0));
    assert_eq!(load.label, AttachmentLabel::Height);
    assert_eq!(load.generation, 0);
    assert_eq!(format!("{:?}", load.clone()), format!("{:?}", load));
    assert_eq!(AttachmentData::R16U(vec![7]).clone().bytes(), 7u16.to_ne_bytes());
}

#[test]
fn oversized_attachments_are_staged_alone() {
    let mut atlas = atlas(2, 4);
    atlas.request_tile(tile(0, 0, 0));
    for load in atlas.take_loads() {
        atlas.tile_loaded(load, AttachmentData::R8U(vec![0; 2 * UPLOAD_BUDGET_BYTES]));
    }
    atlas.stage_uploads();
    assert_eq!(uploads(&mut atlas).len(), 1);
    assert!(atlas.try_stage_uploads());
    assert_eq!(uploads(&mut atlas).len(), 1);
}

#[test]
fn superfluous_attachments_are_refused() {
    let mut atlas = atlas(1, 4);
    atlas.request_tile(tile(0, 0, 0));
    for load in atlas.take_loads() {
        let again = AttachmentTile {
            coordinate: load.coordinate,
            label: load.label.clone(),
            generation: load.generation,
        };
        atlas.tile_loaded(load, AttachmentData::R8U(vec![1]));
        atlas.tile_loaded(again, AttachmentData::R8U(vec![1]));
    }
    assert!(!atlas.try_stage_uploads());
}

#[test]
fn tiles_without_attachments_never_become_ready() {
    let mut atlas = atlas(0, 4);
    atlas.request_tile(tile(0, 0, 0));
    assert!(atlas.take_loads().is_empty());
    atlas.stage_uploads();
    assert_eq!(best(&atlas, tile(0, 0, 0)), None);
}

#[test]
fn parents_cover_their_children() {
    assert_eq!(TileCoordinate::new(3, 2, 3, 2).parent(), Some(TileCoordinate::new(3, 1, 1, 1)));
    assert_eq!(TileCoordinate::new(0, 1, -1, -2).parent(), Some(TileCoordinate::new(0, 0, -1, -1)));
    assert_eq!(TileCoordinate::new(0, 0, 5, 5).parent(), None);
    assert_ne!(TileCoordinate::default(), TileCoordinate::invalid());
}

#[test]
fn paths_matter_for_attachments_only() {
    let config = TerrainConfig {
        path: "assets".to_string(),
        lod_count: 2,
        attachments: Vec::new(),
        tiles: vec![tile(0, 0, 0)],
    };
    let mut atlas = TileAtlas::new(&config, &TerrainSettings::default());
    atlas.request_tile(tile(0, 0, 0));
    assert!(atlas.take_loads().is_empty());
    assert_eq!(atlas.lod_count(), 2);
}
