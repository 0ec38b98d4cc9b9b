//! A grid-maze raycaster: ray marching, wall texturing and the 2D/3D views,
//! computed in fixed-point integers and drawn into a plain pixel buffer.
pub mod framebuffer;
pub mod player;
pub mod caster;
pub mod texture;
pub mod render;
pub mod maze;
