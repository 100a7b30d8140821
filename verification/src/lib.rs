//! Verified core of a voxel game engine.
pub mod geometry;
pub mod chunk;
pub mod render_distance;
pub mod tables;
pub mod save;
pub mod events;
pub mod chunk_manager;
pub mod input;
pub mod application;
pub mod components;
pub mod handle;
pub mod save_format;
pub mod chunk_mesh;
pub mod structure;
pub mod world_gen;
pub mod interaction;
pub mod networking;
pub mod block_model;
pub mod pixels;
pub mod texture_atlas;
