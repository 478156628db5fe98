use renderer::framebuffer::{Framebuffer, DEPTH_INFINITY};

#[test]
fn new_framebuffer_is_black_at_infinite_depth() {
    let fb = Framebuffer::new(4, 3);
    assert_eq!(fb.width(), 4);
    assert_eq!(fb.height(), 3);
    assert_eq!(fb.buffer().len(), 12);
    for y in 0..3 {
        for x in 0..4 {
            assert_eq!(fb.get_color(x, y), 0);
            assert_eq!(fb.get_depth(x, y), DEPTH_INFINITY);
        }
    }
}

#[test]
fn clear_then_read_gives_background_and_infinite_depth() {
    let mut fb = Framebuffer::new(5, 4);
    fb.set_current_color(0x123456);
    fb.point(1, 1, 7);
    fb.set_pixel_raw(3, 2, 0xABCDEF);
    fb.set_background_color(0x0000FF);
    fb.clear();
    for y in 0..4 {
        for x in 0..5 {
            assert_eq!(fb.get_color(x, y), 0x0000FF);
            assert_eq!(fb.get_depth(x, y), DEPTH_INFINITY);
        }
    }
}

#[test]
fn point_writes_when_nearer() {
    let mut fb = Framebuffer::new(3, 3);
    fb.set_current_color(0xFF0000);
    fb.point(2, 1, 10);
    assert_eq!(fb.get_color(2, 1), 0xFF0000);
    assert_eq!(fb.get_depth(2, 1), 10);
    assert_eq!(fb.buffer()[1 * 3 + 2], 0xFF0000);
}

#[test]
fn point_twice_with_same_depth_writes_once() {
    let mut fb = Framebuffer::new(3, 3);
    fb.set_current_color(0x00FF00);
    fb.point(1, 1, 4);
    let after_first = fb.buffer().clone();
    fb.set_current_color(0x0000FF);
    fb.point(1, 1, 4);
    assert_eq!(fb.get_color(1, 1), 0x00FF00);
    assert_eq!(fb.get_depth(1, 1), 4);
    assert_eq!(fb.buffer(), &after_first);
}

#[test]
fn point_rejects_farther_depth() {
    let mut fb = Framebuffer::new(2, 2);
    fb.set_current_color(0x111111);
    fb.point(0, 0, 3);
    fb.set_current_color(0x222222);
    fb.point(0, 0, 9);
    assert_eq!(fb.get_color(0, 0), 0x111111);
    assert_eq!(fb.get_depth(0, 0), 3);
}

#[test]
fn point_out_of_bounds_is_ignored() {
    let mut fb = Framebuffer::new(2, 2);
    let before = fb.buffer().clone();
    fb.point(2, 0, 1);
    fb.point(0, 2, 1);
    fb.point(100, 100, 1);
    assert_eq!(fb.buffer(), &before);
    for y in 0..2 {
        for x in 0..2 {
            assert_eq!(fb.get_depth(x, y), DEPTH_INFINITY);
        }
    }
}

#[test]
fn point_at_infinite_depth_is_rejected() {
    let mut fb = Framebuffer::new(2, 2);
    fb.set_current_color(0xFFFFFF);
    fb.point(1, 1, DEPTH_INFINITY);
    assert_eq!(fb.get_color(1, 1), 0);
}

#[test]
fn raw_write_after_point_overwrites_color_and_keeps_depth() {
    let mut fb = Framebuffer::new(4, 4);
    fb.set_current_color(0xFF0000);
    fb.point(2, 3, 5);
    fb.set_pixel_raw(2, 3, 0x00FF00);
    assert_eq!(fb.get_color(2, 3), 0x00FF00);
    assert_eq!(fb.get_depth(2, 3), 5);
}

#[test]
fn raw_write_ignores_depth_and_bounds() {
    let mut fb = Framebuffer::new(2, 2);
    fb.set_pixel_raw(0, 1, 0x0A0B0C);
    assert_eq!(fb.get_color(0, 1), 0x0A0B0C);
    assert_eq!(fb.get_depth(0, 1), DEPTH_INFINITY);
    let before = fb.buffer().clone();
    fb.set_pixel_raw(5, 0, 0xFFFFFF);
    assert_eq!(fb.buffer(), &before);
}

#[test]
fn nearer_write_wins_in_either_order() {
    let mut fb = Framebuffer::new(1, 1);
    fb.set_current_color(0xAA0000);
    fb.point(0, 0, 1);
    fb.set_current_color(0x00AA00);
    fb.point(0, 0, 6);
    assert_eq!(fb.get_color(0, 0), 0xAA0000);

    let mut fb = Framebuffer::new(1, 1);
    fb.set_current_color(0x00AA00);
    fb.point(0, 0, 6);
    fb.set_current_color(0xAA0000);
    fb.point(0, 0, 1);
    assert_eq!(fb.get_color(0, 0), 0xAA0000);
    assert_eq!(fb.get_depth(0, 0), 1);
}

#[test]
fn clear_depth_keeps_colors() {
    let mut fb = Framebuffer::new(2, 1);
    fb.set_current_color(0x445566);
    fb.point(1, 0, 2);
    fb.clear_depth();
    assert_eq!(fb.get_color(1, 0), 0x445566);
    assert_eq!(fb.get_depth(1, 0), DEPTH_INFINITY);
}

#[test]
fn colors_of_a_new_framebuffer() {
    let mut fb = Framebuffer::new(1, 1);
    assert_eq!(fb.background_color(), 0);
    assert_eq!(fb.current_color(), 0xFFFFFF);
    fb.set_background_color(0x010203);
    assert_eq!(fb.background_color(), 0x010203);
}
