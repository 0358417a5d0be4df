//! A swarm of point-like elements that steer toward a pointer with a little
//! random jitter, and the draw commands that paint them over a fading trail.
//!
//! Positions are held in fixed point: one world unit is `SUBUNITS` sub-units.
pub mod geometry;
pub mod render;
pub mod world;

pub use geometry::{isqrt, seek_step, Point, FIELD, STEP, SUBUNITS};
pub use render::{DrawOp, Renderer, DISC_RADIUS, FADE_ALPHA_PER_MILLE};
pub use world::{frame_steers, Element, World, JITTER};
