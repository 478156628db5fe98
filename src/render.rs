//! One draw call: transform, triangle assembly, rasterization and
//! depth-tested writes into the framebuffer.

use vstd::prelude::*;
use crate::color::hex_of;
use crate::fragment::Fragment;
use crate::framebuffer::{FrameModel, Framebuffer};
use crate::transform::{Uniforms, transformed, vertex_shader};
use crate::triangle::{covered_pixels, is_fragment_of, pixels_of, triangle};
use crate::vector::{Mat4, Vec3};
use crate::vertex::Vertex;

verus! {

/// The vertices in consecutive runs of three; a remainder of one or two
/// vertices is dropped.
pub open spec fn triangles_of(vs: Seq<Vertex>) -> Seq<(Vertex, Vertex, Vertex)> {
    Seq::new(vs.len() / 3, |t: int| (vs[3 * t], vs[3 * t + 1], vs[3 * t + 2]))
}

/// Every vertex transformed by `m`.
pub open spec fn transformed_all(vs: Seq<Vertex>, m: Mat4) -> Seq<Vertex> {
    vs.map_values(|v: Vertex| transformed(v, m))
}

/// `frags` is what rasterizing `tri` with `shader` gives.
pub open spec fn rasterizes<F: Fn(Vec3, Vec3) -> Vec3>(
    tri: (Vertex, Vertex, Vertex),
    shader: F,
    frags: Seq<Fragment>,
) -> bool {
    &&& pixels_of(frags) == covered_pixels(
        tri.0.transformed_position,
        tri.1.transformed_position,
        tri.2.transformed_position,
    )
    &&& forall|i: int| 0 <= i < frags.len() ==> is_fragment_of(tri.0, tri.1, tri.2, shader, #[trigger] frags[i])
}

/// `parts[t]` is what rasterizing `tris[t]` gives, for every `t`.
pub open spec fn rasterizes_all<F: Fn(Vec3, Vec3) -> Vec3>(
    tris: Seq<(Vertex, Vertex, Vertex)>,
    shader: F,
    parts: Seq<Seq<Fragment>>,
) -> bool {
    &&& parts.len() == tris.len()
    &&& forall|t: int| 0 <= t < tris.len() ==> rasterizes(tris[t], shader, #[trigger] parts[t])
}

/// The write of one fragment: inside the framebuffer its color becomes the
/// current color and goes through the depth test; outside it is dropped.
pub open spec fn draw_fragment(fb: FrameModel, f: Fragment) -> FrameModel {
    if fb.in_bounds(f.x as int, f.y as int) {
        fb.with_current(hex_of(f.color.r as int, f.color.g as int, f.color.b as int) as u32).point(
            f.x as int,
            f.y as int,
            f.depth,
        )
    } else {
        fb
    }
}

/// The writes of `frags`, in order.
pub open spec fn draw_all(fb: FrameModel, frags: Seq<Fragment>) -> FrameModel
    decreases frags.len(),
{
    if frags.len() == 0 {
        fb
    } else {
        draw_fragment(draw_all(fb, frags.drop_last()), frags.last())
    }
}

/// Transforms every vertex.
pub fn transform_vertices(vertices: &Vec<Vertex>, uniforms: &Uniforms) -> (r: Vec<Vertex>)
    ensures
        r@ == transformed_all(vertices@, uniforms.model_matrix),
{
    let mut out: Vec<Vertex> = Vec::new();
    let mut i: usize = 0;
    while i < vertices.len()
        invariant
            i <= vertices@.len(),
            out@ =~= transformed_all(vertices@.take(i as int), uniforms.model_matrix),
        decreases vertices@.len() - i,
    {
        out.push(vertex_shader(&vertices[i], uniforms));
        i = i + 1;
        assert(out@ =~= transformed_all(vertices@.take(i as int), uniforms.model_matrix));
    }
    assert(vertices@.take(i as int) =~= vertices@);
    out
}

/// Groups the vertices into triangles of three consecutive vertices,
/// dropping an incomplete run at the end.
pub fn assemble_triangles(vertices: &Vec<Vertex>) -> (r: Vec<(Vertex, Vertex, Vertex)>)
    ensures
        r@ == triangles_of(vertices@),
{
    let mut out: Vec<(Vertex, Vertex, Vertex)> = Vec::new();
    let len = vertices.len();
    let count = len / 3;
    let mut t: usize = 0;
    while t < count
        invariant
            len == vertices@.len(),
            count == vertices@.len() / 3,
            t <= count,
            out@ =~= triangles_of(vertices@).take(t as int),
        decreases count - t,
    {
        proof {
            vstd::arithmetic::div_mod::lemma_fundamental_div_mod(len as int, 3);
            vstd::arithmetic::div_mod::lemma_mod_pos_bound(len as int, 3);
            assert(3 * (t as int) + 2 < len);
        }
        let base = 3 * t;
        out.push((vertices[base], vertices[base + 1], vertices[base + 2]));
        t = t + 1;
        assert(out@ =~= triangles_of(vertices@).take(t as int));
    }
    assert(triangles_of(vertices@).take(t as int) =~= triangles_of(vertices@));
    out
}

/// Rasterizes every triangle with `shader`, concatenating the fragments.
pub fn rasterize_all<F: Fn(Vec3, Vec3) -> Vec3>(
    triangles: &Vec<(Vertex, Vertex, Vertex)>,
    shader: &F,
) -> (r: Vec<Fragment>)
    requires
        forall|p: Vec3, n: Vec3| call_requires(*shader, (p, n)),
    ensures
        exists|parts: Seq<Seq<Fragment>>|
            rasterizes_all(triangles@, *shader, parts) && r@ == parts.flatten(),
{
    let mut out: Vec<Fragment> = Vec::new();
    let ghost mut parts: Seq<Seq<Fragment>> = seq![];
    let mut t: usize = 0;
    while t < triangles.len()
        invariant
            forall|p: Vec3, n: Vec3| call_requires(*shader, (p, n)),
            t <= triangles@.len(),
            rasterizes_all(triangles@.take(t as int), *shader, parts),
            out@ == parts.flatten(),
        decreases triangles@.len() - t,
    {
        let (v1, v2, v3) = triangles[t];
        let mut part = triangle(&v1, &v2, &v3, shader);
        let ghost part_seq = part@;
        proof {
            parts.lemma_flatten_push(part_seq);
        }
        out.append(&mut part);
        proof {
            let old_parts = parts;
            parts = parts.push(part_seq);
            assert(rasterizes(triangles@[t as int], *shader, part_seq));
            assert forall|u: int| 0 <= u < t + 1 implies rasterizes(
                triangles@.take(t + 1)[u],
                *shader,
                #[trigger] parts[u],
            ) by {
                if u < t {
                    assert(triangles@.take(t as int)[u] == triangles@.take(t + 1)[u]);
                    assert(parts[u] == old_parts[u]);
                }
            }
        }
        t = t + 1;
    }
    assert(triangles@.take(t as int) =~= triangles@);
    out
}

/// Writes each fragment that lands inside the framebuffer: its color
/// becomes the current color and goes through the depth test.
pub fn draw_fragments(framebuffer: &mut Framebuffer, fragments: &Vec<Fragment>)
    requires
        old(framebuffer).wf(),
    ensures
        final(framebuffer).wf(),
        final(framebuffer)@ == draw_all(old(framebuffer)@, fragments@),
{
    let mut i: usize = 0;
    assert(fragments@.take(0) =~= seq![]);
    while i < fragments.len()
        invariant
            framebuffer.wf(),
            i <= fragments@.len(),
            framebuffer@ == draw_all(old(framebuffer)@, fragments@.take(i as int)),
        decreases fragments@.len() - i,
    {
        let f = fragments[i];
        if f.x >= 0 && f.y >= 0 && (f.x as usize) < framebuffer.width() && (f.y as usize)
            < framebuffer.height() {
            framebuffer.set_current_color(f.color.to_hex());
            framebuffer.point(f.x as usize, f.y as usize, f.depth);
        }
        assert(fragments@.take(i + 1).drop_last() =~= fragments@.take(i as int));
        i = i + 1;
    }
    assert(fragments@.take(i as int) =~= fragments@);
}

/// Draws `vertex_array` with `uniforms` and `shader`: every vertex is
/// transformed, consecutive runs of three form triangles, and the
/// fragments of each triangle in turn are written with depth testing.
pub fn render<F: Fn(Vec3, Vec3) -> Vec3>(
    framebuffer: &mut Framebuffer,
    uniforms: &Uniforms,
    vertex_array: &Vec<Vertex>,
    shader: &F,
)
    requires
        old(framebuffer).wf(),
        forall|p: Vec3, n: Vec3| call_requires(*shader, (p, n)),
    ensures
        final(framebuffer).wf(),
        exists|parts: Seq<Seq<Fragment>>|
            rasterizes_all(
                triangles_of(transformed_all(vertex_array@, uniforms.model_matrix)),
                *shader,
                parts,
            ) && final(framebuffer)@ == draw_all(old(framebuffer)@, parts.flatten()),
{
    let transformed_vertices = transform_vertices(vertex_array, uniforms);
    let triangles = assemble_triangles(&transformed_vertices);
    let fragments = rasterize_all(&triangles, shader);
    draw_fragments(framebuffer, &fragments);
}

} // verus!
