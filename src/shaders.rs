//! Shading configuration and the dispatch of shading styles.
//!
//! The configuration is an explicit value handed to each draw call: the
//! selected style, the light and the noise seed that perturbs the patterns.

use vstd::prelude::*;
use crate::fixed::ONE;
use crate::vector::Vec3;

verus! {

/// The procedural coloring strategies. Each maps a model-space position and
/// normal to a linear RGB color.
#[derive(Clone, Copy, Debug, PartialEq, Eq, Structural)]
pub enum ShaderStyle {
    Gas,
    Rock,
    Sun,
    Cheese,
    Cat,
    Bubblegum,
    Ice,
}

/// The style a style key selects: keys 0 to 6 name gas, rock, sun, cheese,
/// cat, bubblegum and ice; every other key falls back to gas.
pub open spec fn style_of(idx: int) -> ShaderStyle {
    if idx == 1 {
        ShaderStyle::Rock
    } else if idx == 2 {
        ShaderStyle::Sun
    } else if idx == 3 {
        ShaderStyle::Cheese
    } else if idx == 4 {
        ShaderStyle::Cat
    } else if idx == 5 {
        ShaderStyle::Bubblegum
    } else if idx == 6 {
        ShaderStyle::Ice
    } else {
        ShaderStyle::Gas
    }
}

/// The state that shading reads during a draw call.
#[derive(Clone, Copy, Debug, PartialEq, Eq, Structural)]
pub struct ShadingContext {
    pub shader_index: usize,
    pub noise_seed: u32,
    /// Fixed-point direction towards the light.
    pub light_direction: Vec3,
    /// Fixed-point light intensity.
    pub light_intensity: i32,
}

impl ShadingContext {
    /// Style key 0, seed 0, light along +z at full intensity.
    pub fn new() -> (c: ShadingContext)
        ensures
            c == (ShadingContext {
                shader_index: 0,
                noise_seed: 0,
                light_direction: Vec3 { x: 0, y: 0, z: ONE as i32 },
                light_intensity: ONE as i32,
            }),
    {
        ShadingContext {
            shader_index: 0,
            noise_seed: 0,
            light_direction: Vec3::new(0, 0, ONE as i32),
            light_intensity: ONE as i32,
        }
    }
}

/// Selects the style key for the next draw calls.
pub fn set_shader_index(ctx: &mut ShadingContext, idx: usize)
    ensures
        *final(ctx) == (ShadingContext { shader_index: idx, ..*old(ctx) }),
{
    ctx.shader_index = idx;
}

/// The selected style key.
pub fn get_shader_index(ctx: &ShadingContext) -> (idx: usize)
    ensures
        idx == ctx.shader_index,
{
    ctx.shader_index
}

/// Sets the seed that perturbs the noise patterns.
pub fn set_noise_seed(ctx: &mut ShadingContext, seed: u32)
    ensures
        *final(ctx) == (ShadingContext { noise_seed: seed, ..*old(ctx) }),
{
    ctx.noise_seed = seed;
}

/// The seed that perturbs the noise patterns.
pub fn get_noise_seed(ctx: &ShadingContext) -> (seed: u32)
    ensures
        seed == ctx.noise_seed,
{
    ctx.noise_seed
}

/// Sets the direction towards the light.
pub fn set_light_direction(ctx: &mut ShadingContext, dir: Vec3)
    ensures
        *final(ctx) == (ShadingContext { light_direction: dir, ..*old(ctx) }),
{
    ctx.light_direction = dir;
}

/// Sets the light intensity.
pub fn set_light_intensity(ctx: &mut ShadingContext, intensity: i32)
    ensures
        *final(ctx) == (ShadingContext { light_intensity: intensity, ..*old(ctx) }),
{
    ctx.light_intensity = intensity;
}

/// The style that a style key selects.
pub fn style_for_index(idx: usize) -> (s: ShaderStyle)
    ensures
        s == style_of(idx as int),
{
    match idx {
        1 => ShaderStyle::Rock,
        2 => ShaderStyle::Sun,
        3 => ShaderStyle::Cheese,
        4 => ShaderStyle::Cat,
        5 => ShaderStyle::Bubblegum,
        6 => ShaderStyle::Ice,
        _ => ShaderStyle::Gas,
    }
}

/// The style the context selects.
pub fn current_style(ctx: &ShadingContext) -> (s: ShaderStyle)
    ensures
        s == style_of(ctx.shader_index as int),
{
    style_for_index(ctx.shader_index)
}

/// What a digit key selects: the whole solar system, or a single object
/// drawn with one style key.
#[derive(Clone, Copy, Debug, PartialEq, Eq, Structural)]
pub enum ViewSelection {
    SolarSystem,
    Single(usize),
}

/// The selection of digit key `digit`: 1 shows the solar system; 2 to 9
/// show a single object with style keys 1, 2, 0, 3, 4, 5, 6 and 7; other
/// digits select nothing.
pub open spec fn selection_of(digit: int) -> Option<ViewSelection> {
    if digit == 1 {
        Some(ViewSelection::SolarSystem)
    } else if digit == 2 {
        Some(ViewSelection::Single(1))
    } else if digit == 3 {
        Some(ViewSelection::Single(2))
    } else if digit == 4 {
        Some(ViewSelection::Single(0))
    } else if 5 <= digit <= 9 {
        Some(ViewSelection::Single((digit - 2) as usize))
    } else {
        None
    }
}

/// The selection that digit key `digit` makes.
pub fn selection_for_digit(digit: u8) -> (r: Option<ViewSelection>)
    ensures
        r == selection_of(digit as int),
{
    match digit {
        1 => Some(ViewSelection::SolarSystem),
        2 => Some(ViewSelection::Single(1)),
        3 => Some(ViewSelection::Single(2)),
        4 => Some(ViewSelection::Single(0)),
        5..=9 => Some(ViewSelection::Single((digit - 2) as usize)),
        _ => None,
    }
}

} // verus!
