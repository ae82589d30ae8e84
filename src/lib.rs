//! Procedural voxel terrain core: a cached height-field sampler, the
//! material filter that keeps liquids out of collision geometry, the
//! per-chunk dirty tracker and the collider rebuild decisions.
pub mod voxel;
pub mod sampler;
pub mod dirty;
pub mod collider;
