use renderer::color::Color;
use renderer::fixed::ONE;
use renderer::shaders::{
    current_style, get_noise_seed, get_shader_index, selection_for_digit, set_light_direction,
    set_light_intensity, set_noise_seed, set_shader_index, style_for_index, ShaderStyle,
    ShadingContext, ViewSelection,
};
use renderer::vector::Vec3;

#[test]
fn style_keys_select_the_catalog() {
    assert_eq!(style_for_index(0), ShaderStyle::Gas);
    assert_eq!(style_for_index(1), ShaderStyle::Rock);
    assert_eq!(style_for_index(2), ShaderStyle::Sun);
    assert_eq!(style_for_index(3), ShaderStyle::Cheese);
    assert_eq!(style_for_index(4), ShaderStyle::Cat);
    assert_eq!(style_for_index(5), ShaderStyle::Bubblegum);
    assert_eq!(style_for_index(6), ShaderStyle::Ice);
    assert_eq!(style_for_index(7), ShaderStyle::Gas);
    assert_eq!(style_for_index(usize::MAX), ShaderStyle::Gas);
}

#[test]
fn context_setters_and_getters() {
    let mut ctx = ShadingContext::new();
    assert_eq!(get_shader_index(&ctx), 0);
    assert_eq!(get_noise_seed(&ctx), 0);
    set_shader_index(&mut ctx, 4);
    set_noise_seed(&mut ctx, 0xDEAD_BEEF);
    assert_eq!(get_shader_index(&ctx), 4);
    assert_eq!(get_noise_seed(&ctx), 0xDEAD_BEEF);
    assert_eq!(current_style(&ctx), ShaderStyle::Cat);
    set_light_direction(&mut ctx, Vec3::new(1, 2, 3));
    set_light_intensity(&mut ctx, 7);
    assert_eq!(ctx.light_direction, Vec3::new(1, 2, 3));
    assert_eq!(ctx.light_intensity, 7);
    assert_eq!(ctx.shader_index, 4);
}

#[test]
fn digit_keys_select_views() {
    assert_eq!(selection_for_digit(1), Some(ViewSelection::SolarSystem));
    assert_eq!(selection_for_digit(2), Some(ViewSelection::Single(1)));
    assert_eq!(selection_for_digit(3), Some(ViewSelection::Single(2)));
    assert_eq!(selection_for_digit(4), Some(ViewSelection::Single(0)));
    assert_eq!(selection_for_digit(5), Some(ViewSelection::Single(3)));
    assert_eq!(selection_for_digit(9), Some(ViewSelection::Single(7)));
    assert_eq!(selection_for_digit(0), None);
    assert_eq!(selection_for_digit(10), None);
}

#[test]
fn color_packing() {
    assert_eq!(Color::new(0x12, 0x34, 0x56).to_hex(), 0x123456);
    assert_eq!(Color::from_hex(0xFF123456), Color::new(0x12, 0x34, 0x56));
    assert_eq!(Color::black().to_hex(), 0);
}

#[test]
fn intensity_to_channels() {
    let one = ONE as i32;
    assert_eq!(Color::from_intensity(Vec3::new(one, 0, one / 2)), Color::new(255, 0, 127));
    assert_eq!(Color::from_intensity(Vec3::new(-5, 2 * one, one / 4)), Color::new(0, 255, 63));
    assert_eq!(Color::from_intensity(Vec3::new(258, 257, 255)), Color::new(1, 0, 0));
}
