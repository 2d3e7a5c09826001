//! Event snapshot history buffers and pairwise distance culling for a
//! replicated multiplayer simulation.

pub mod event_snapshot;
pub mod distance_culling;
pub mod game;
