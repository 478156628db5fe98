//! A CPU software renderer over fixed-point integer geometry: vertex
//! transform, barycentric rasterization, a depth-tested framebuffer and the
//! dispatch of procedural shading styles.

pub mod fixed;
pub mod vector;
pub mod color;
pub mod vertex;
pub mod fragment;
pub mod framebuffer;
pub mod shaders;
pub mod transform;
pub mod triangle;
pub mod line;
pub mod render;
