//! Verified core logic of the Forgia game: seeded roguelite run graphs,
//! room-grid mazes, deterministic hashes and cache keys, chunk bookkeeping
//! and compressed chunk storage, sensor verdicts, and the small enumerations
//! that the terrain and streaming layers share.

pub mod run_graph;
pub mod rooms;
pub mod hashes;
pub mod stage;
pub mod biomes;
pub mod config_dir;
pub mod streaming;
pub mod chunk;
pub mod sdf_cache;
pub mod padding_ring;
pub mod floor_plan;
pub mod collision;
pub mod paths;
pub mod terrain_shape;
pub mod damage_arcs;
pub mod noise_cache;
pub mod biome_registry;
pub mod layout_verdict;
pub mod navmesh_rebuild;
