use bevy_terrain::attachment::{
    AttachmentConfig, AttachmentData, AttachmentFormat, AttachmentLabel,
};
use bevy_terrain::coordinate::TileCoordinate;
use bevy_terrain::gpu_tile_atlas::{
    compact_rows, downloaded_tile, AttachmentBufferInfo, GpuTileAtlas, MipStep,
};
use bevy_terrain::plugin::TerrainSettings;
use bevy_terrain::tile_atlas::{TerrainConfig, TileAtlas};

fn info(texture_size: u32, mip_level_count: u32) -> AttachmentBufferInfo {
    AttachmentBufferInfo {
        texture_size,
        mip_level_count,
        actual_side_size: 3,
        aligned_side_size: 5,
        actual_tile_size: 3 * texture_size,
        format: AttachmentFormat::R8U,
    }
}

#[test]
fn rows_are_moved_together() {
    let data = vec![1, 2, 3, 90, 91, 4, 5, 6, 92, 93, 7, 8, 9, 94, 95];
    assert_eq!(compact_rows(data, &info(3, 1)), vec![1, 2, 3, 4, 5, 6, 7, 8, 9]);
    assert_eq!(compact_rows(vec![1, 2, 3, 90, 91], &info(1, 1)), vec![1, 2, 3]);
    // A single row is not moved, however short it is.
    assert_eq!(compact_rows(vec![1, 2], &info(1, 1)), vec![1, 2]);
    assert_eq!(compact_rows(vec![1, 2], &info(0, 1)), Vec::<u8>::new());
}

#[test]
fn unpadded_rows_stay() {
    let data: Vec<u8> = (0..9).collect();
    assert_eq!(compact_rows(data.clone(), &info(3, 1)), data);
}

#[test]
fn downloads_are_read_as_pixels() {
    let tile = downloaded_tile(
        vec![1, 2, 3, 0, 0, 4, 5, 6, 0, 0],
        &info(2, 1),
        7,
        AttachmentLabel::Height,
    );
    assert_eq!(tile.atlas_index, 7);
    assert_eq!(tile.label, AttachmentLabel::Height);
    assert_eq!(tile.data.bytes(), &[1, 2, 3, 4, 5, 6]);
}

#[test]
fn mips_are_generated_in_groups_of_eight() {
    assert_eq!(info(64, 1).mip_step(false, true), MipStep::Skip);
    assert_eq!(info(64, 4).mip_step(false, true), MipStep::Stop);
    assert_eq!(info(64, 4).mip_step(true, true), MipStep::Dispatch(8));
    assert_eq!(info(63, 4).mip_step(true, false), MipStep::Skip);
    assert!(!info(64, 0).needs_mips());
    assert!(!info(64, 1).needs_mips());
    assert!(info(64, 2).needs_mips());
}

fn loaded_atlas() -> TileAtlas {
    let tiles: Vec<TileCoordinate> = (0..2).map(|x| TileCoordinate::new(0, 1, x, 0)).collect();
    let format = AttachmentFormat::R8U;
    let config = TerrainConfig {
        path: "terrain".to_string(),
        lod_count: 2,
        attachments: vec![
            (AttachmentLabel::Height, AttachmentConfig { format, ..AttachmentConfig::default() }),
            (
                AttachmentLabel::Custom("albedo".to_string()),
                AttachmentConfig { format, ..AttachmentConfig::default() },
            ),
        ],
        tiles: tiles.clone(),
    };
    let mut atlas = TileAtlas::new(&config, &TerrainSettings::default());
    for tile in tiles {
        atlas.request_tile(tile);
    }
    for load in atlas.take_loads() {
        atlas.tile_loaded(load, AttachmentData::R8U(vec![5]));
    }
    atlas.stage_uploads();
    atlas
}

fn mips(atlas: &GpuTileAtlas, label: &AttachmentLabel) -> Vec<Vec<u32>> {
    atlas.attachment(label).unwrap().mips_to_generate.clone()
}

#[test]
fn uploads_call_for_mips() {
    let mut atlas = loaded_atlas();
    let albedo = AttachmentLabel::Custom("albedo".to_string());
    let mut gpu = GpuTileAtlas::new(
        &vec![(AttachmentLabel::Height, info(8, 3)), (albedo.clone(), info(16, 1))],
        true,
    );
    assert!(gpu.is_spherical());
    assert!(gpu.attachment(&AttachmentLabel::Empty(0)).is_none());
    assert_eq!(mips(&gpu, &AttachmentLabel::Height), vec![Vec::<u32>::new(); 3]);
    gpu.extract(&mut atlas);
    assert_eq!(mips(&gpu, &AttachmentLabel::Height), vec![vec![], vec![0, 1], vec![0, 1]]);
    assert_eq!(mips(&gpu, &albedo), vec![Vec::<u32>::new()]);

    let uploads = gpu.upload_tiles();
    assert_eq!(uploads.len(), 4);
    for upload in &uploads {
        assert_eq!(upload.data.bytes(), &[5]);
        assert_eq!(upload.bytes_per_row, 3);
        let size = if upload.label == albedo { 16 } else { 8 };
        assert_eq!(upload.rows_per_image, size);
        assert!(upload.atlas_index < 2);
    }
    assert!(gpu.upload_tiles().is_empty());

    gpu.extract(&mut atlas);
    assert_eq!(mips(&gpu, &AttachmentLabel::Height), vec![Vec::<u32>::new(); 3]);
    assert!(gpu.upload_tiles().is_empty());
}

#[test]
fn uploads_that_were_not_written_come_back() {
    let mut atlas = loaded_atlas();
    let albedo = AttachmentLabel::Custom("albedo".to_string());
    let mut gpu =
        GpuTileAtlas::new(&vec![(AttachmentLabel::Height, info(8, 3)), (albedo, info(16, 1))], false);
    gpu.extract(&mut atlas);
    gpu.extract(&mut atlas);
    assert!(gpu.upload_tiles().is_empty());
    let mut tiles = Vec::new();
    atlas.swap_uploading_tiles(&mut tiles);
    assert_eq!(tiles.len(), 4);
}
