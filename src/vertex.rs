//! Vertices: object-space attributes plus the fields the transform fills in.

use vstd::prelude::*;
use crate::color::Color;
use crate::vector::{Vec2, Vec3};

verus! {

/// A vertex. `transformed_position` and `transformed_normal` are written by
/// the transform stage; the other fields are fixed at load time.
#[derive(Clone, Copy, Debug, PartialEq, Eq, Structural)]
pub struct Vertex {
    pub position: Vec3,
    pub normal: Vec3,
    pub tex_coords: Vec2,
    pub color: Color,
    pub transformed_position: Vec3,
    pub transformed_normal: Vec3,
}

impl Vertex {
    /// A black vertex whose transformed fields start as its object-space ones.
    pub fn new(position: Vec3, normal: Vec3, tex_coords: Vec2) -> (v: Vertex)
        ensures
            v == (Vertex {
                position,
                normal,
                tex_coords,
                color: Color { r: 0, g: 0, b: 0 },
                transformed_position: position,
                transformed_normal: normal,
            }),
    {
        Vertex {
            position,
            normal,
            tex_coords,
            color: Color::black(),
            transformed_position: position,
            transformed_normal: normal,
        }
    }
}

} // verus!
