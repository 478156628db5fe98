use renderer::fixed::ONE;
use renderer::framebuffer::{Framebuffer, DEPTH_INFINITY};
use renderer::render::{assemble_triangles, draw_fragments, rasterize_all, render, transform_vertices};
use renderer::transform::Uniforms;
use renderer::vector::{Mat4, Vec2, Vec3};
use renderer::vertex::Vertex;

const F: i32 = ONE as i32;

fn at(x: i32, y: i32, z: i32) -> Vertex {
    Vertex::new(Vec3::new(x * F, y * F, z * F), Vec3::new(0, 0, F), Vec2::new(0, 0))
}

fn red(_p: Vec3, _n: Vec3) -> Vec3 {
    Vec3::new(F, 0, 0)
}

fn blue(_p: Vec3, _n: Vec3) -> Vec3 {
    Vec3::new(0, 0, F)
}

fn identity() -> Uniforms {
    Uniforms { model_matrix: Mat4::identity() }
}

fn footprint(z: i32) -> Vec<Vertex> {
    vec![at(0, 0, z), at(10, 0, z), at(0, 10, z)]
}

#[test]
fn nearer_triangle_stays_visible_in_either_order() {
    let near = footprint(0);
    let far = footprint(5);
    let u = identity();

    let mut fb = Framebuffer::new(12, 12);
    render(&mut fb, &u, &near, &red);
    render(&mut fb, &u, &far, &blue);
    let mut fb2 = Framebuffer::new(12, 12);
    render(&mut fb2, &u, &far, &blue);
    render(&mut fb2, &u, &near, &red);

    for y in 0..12usize {
        for x in 0..12usize {
            if x + y <= 9 {
                assert_eq!(fb.get_color(x, y), 0xFF0000);
                assert_eq!(fb2.get_color(x, y), 0xFF0000);
                assert_eq!(fb.get_depth(x, y), 0);
                assert_eq!(fb2.get_depth(x, y), 0);
            } else {
                assert_eq!(fb.get_color(x, y), 0);
                assert_eq!(fb2.get_depth(x, y), DEPTH_INFINITY);
            }
        }
    }
}

#[test]
fn incomplete_vertex_run_is_dropped() {
    let mut vs = footprint(0);
    vs.push(at(11, 11, 0));
    vs.push(at(11, 0, 0));
    assert_eq!(assemble_triangles(&vs).len(), 1);
    let mut fb = Framebuffer::new(12, 12);
    render(&mut fb, &identity(), &vs, &red);
    let mut fb2 = Framebuffer::new(12, 12);
    render(&mut fb2, &identity(), &footprint(0), &red);
    assert_eq!(fb.buffer(), fb2.buffer());
}

#[test]
fn triangles_are_consecutive_runs() {
    let vs: Vec<Vertex> = (0..7).map(|i| at(i, 0, 0)).collect();
    let tris = assemble_triangles(&vs);
    assert_eq!(tris.len(), 2);
    assert_eq!(tris[0], (vs[0], vs[1], vs[2]));
    assert_eq!(tris[1], (vs[3], vs[4], vs[5]));
}

#[test]
fn render_applies_the_model_matrix() {
    let mut m = Mat4::identity();
    m.m[0][3] = 20 * F;
    let u = Uniforms { model_matrix: m };
    let vs = footprint(0);
    let moved = transform_vertices(&vs, &u);
    assert_eq!(moved[1].transformed_position, Vec3::new(30 * F, 0, 0));
    assert_eq!(moved[1].position, vs[1].position);
    let mut fb = Framebuffer::new(32, 12);
    render(&mut fb, &u, &vs, &red);
    assert_eq!(fb.get_color(20, 0), 0xFF0000);
    assert_eq!(fb.get_color(29, 0), 0xFF0000);
    assert_eq!(fb.get_color(19, 0), 0);
    assert_eq!(fb.get_color(0, 0), 0);
}

#[test]
fn fragments_outside_the_framebuffer_are_dropped() {
    let vs = vec![at(-5, -5, 0), at(7, -5, 0), at(-5, 7, 0)];
    let tris = assemble_triangles(&transform_vertices(&vs, &identity()));
    let frags = rasterize_all(&tris, &red);
    assert!(frags.iter().any(|f| f.x < 0 || f.y < 0));
    let mut fb = Framebuffer::new(4, 4);
    draw_fragments(&mut fb, &frags);
    assert_eq!(fb.get_color(0, 0), 0xFF0000);
    assert_eq!(fb.get_color(3, 3), 0);
}
