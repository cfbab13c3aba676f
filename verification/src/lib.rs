//! Core of a small real-time 3D rendering engine.
//!
//! The crate owns the bookkeeping that a frame depends on: an append-only
//! store of GPU resources addressed by stable handles, a scene of entities
//! with transforms and parent/child links, and the per-frame recording logic
//! that selects a camera and turns the scene into an ordered list of draw
//! commands batched by material.  Scalar fields that the GPU consumes as
//! floating point (positions, rotations, projection parameters) are carried
//! here as raw IEEE 754 bit patterns; the thin GPU layer around this crate
//! converts them when it replays a command list against a graphics device.

pub mod camera;
pub mod renderer;
pub mod resource_manager;
pub mod scene;
pub mod transform;

