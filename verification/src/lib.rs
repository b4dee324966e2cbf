//! A verified ray-casting engine for first-person rendering of a 2D
//! grid maze: grid solidity queries, fixed-point ray marching,
//! texture-coordinate derivation, fisheye correction, and perspective
//! projection of wall slices, together with the framebuffer the
//! renderers draw into.

pub mod caster;
pub mod framebuffer;
pub mod maze;
pub mod projector;
pub mod render;
