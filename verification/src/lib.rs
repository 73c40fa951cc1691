//! A slime-mould simulation: blobs wander over a trail map, leave their colour
//! behind them, and steer towards the strongest trail they can sense. The
//! trail map is blurred and slowly evaporates between frames.
//!
//! This crate holds the integer part of the simulation: the trail map with its
//! deposit and blur/evaporation steps, the colour packing, the trail sampling
//! and steering decision of a blob, and the spawn-radius check.

pub mod blob;
pub mod color;
pub mod config;

pub mod trail_laws;
pub mod trail_map;
