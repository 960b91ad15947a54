//! Simulation core of a block-world game: chunked voxel storage with
//! global/local coordinate mapping, dirty tracking and face-culled mesh
//! extraction, a grid-traversal raycaster, and fixed-timestep player
//! physics with per-axis collision against the voxel grid. Positions,
//! directions and velocities are fixed-point integers.

pub mod block_texture_sides;
pub mod chunk;
pub mod chunk_manager;
pub mod mesher;
pub mod timer;
pub mod raycast;
pub mod physics;
pub mod player;
