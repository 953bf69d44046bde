//! Streaming and rendering of large terrains.
//!
//! A terrain is a quadtree of tiles. The tile tree of a view decides which tiles are needed, the tile
//! atlas loads them into its slots and serves the best ones that are there, and the GPU tile atlas
//! brings the textures of those slots up to date. The remaining modules decide how a terrain is drawn:
//! by which pipeline, in which pass and with which buffers.

pub mod attachment;
pub mod byte_cast;
pub mod collections;
pub mod coordinate;
pub mod coverage;
pub mod demand;
pub mod gpu_tile_atlas;
pub mod grid;
pub mod loading;
pub mod nearness;
pub mod picking;
pub mod plugin;
pub mod residency;
pub mod shader_defs;
pub mod shaders;
pub mod slots;
pub mod streaming;
pub mod terrain_material;
pub mod terrain_pass;
pub mod terrain_shadow;
pub mod terrain_view_bind_group;
pub mod terrains;
pub mod text;
pub mod tile_atlas;
pub mod tile_tree;
pub mod window;
