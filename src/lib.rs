//! Navigation core for an agent in a voxel world: collision shapes,
//! sweep clamping along one axis, composable goals and an A* search; with
//! the chat-template formatting and named-binary-tag codec that sit beside it.
//!
//! Continuous coordinates are fixed point: `voxel::UNITS_PER_BLOCK` units to
//! a block.

pub mod shape;
pub mod voxel;
pub mod collide;
pub mod goal;
pub mod search;
pub mod chat;
pub mod nbt;
