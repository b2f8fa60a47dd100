//! Core logic of a "click the shrinking blobs" game: the per-frame blob
//! simulation (growth, shrinking, motion with wall bounces, splash spawning
//! and merging, click hit-testing, scoring), the packing of live blobs into
//! the dense per-entity arrays a fragment shader consumes, the ping-pong
//! bookkeeping of the ripple feedback render targets, and the game-state
//! machine. All quantities are fixed-point integers scaled by `SCALE`.

pub mod fixed;
pub mod geom;
pub mod sampling;
pub mod blob;
pub mod score;
pub mod sim;
pub mod splash;
pub mod click;
pub mod ripple;
pub mod state;
pub mod render;
