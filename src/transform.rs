//! The transform stage: model matrix, perspective division and the
//! inverse-transpose transform of normals.

use vstd::prelude::*;
use crate::fixed::{ONE, div_floor, saturate, floor_div, saturate_i32, lemma_mul_bound};
use crate::vector::{Mat4, Vec3};
use crate::vertex::Vertex;

verus! {

/// The per-draw-call transform.
#[derive(Clone, Copy, Debug)]
pub struct Uniforms {
    pub model_matrix: Mat4,
}

/// Row `i` of the matrix times the homogeneous point `(x, y, z, 1)`, in
/// units of `ONE * ONE`.
pub open spec fn row_product(m: Mat4, i: int, p: Vec3) -> int {
    m.entry(i, 0) * p.x + m.entry(i, 1) * p.y + m.entry(i, 2) * p.z + m.entry(i, 3) * ONE
}

/// Perspective division of a homogeneous coordinate `s` by `w`, giving a
/// fixed-point value. A zero `w` sends the value to the end of the range
/// on the side of its sign, as a float division by zero does.
pub open spec fn project(s: int, w: int) -> int {
    if w == 0 {
        if s > 0 {
            i32::MAX as int
        } else if s < 0 {
            i32::MIN as int
        } else {
            0
        }
    } else {
        saturate(div_floor(s * ONE, w))
    }
}

/// The projected, perspective-divided position of `p`.
pub open spec fn transform_position(m: Mat4, p: Vec3) -> Vec3 {
    let w = row_product(m, 3, p);
    Vec3 {
        x: project(row_product(m, 0, p), w) as i32,
        y: project(row_product(m, 1, p), w) as i32,
        z: project(row_product(m, 2, p), w) as i32,
    }
}

/// The signed cofactor of entry `(i, j)` of the upper-left 3x3 block.
pub open spec fn cofactor(m: Mat4, i: int, j: int) -> int {
    m.entry((i + 1) % 3, (j + 1) % 3) * m.entry((i + 2) % 3, (j + 2) % 3) - m.entry(
        (i + 1) % 3,
        (j + 2) % 3,
    ) * m.entry((i + 2) % 3, (j + 1) % 3)
}

/// The determinant of the upper-left 3x3 block.
pub open spec fn det3(m: Mat4) -> int {
    m.entry(0, 0) * cofactor(m, 0, 0) + m.entry(0, 1) * cofactor(m, 0, 1) + m.entry(0, 2)
        * cofactor(m, 0, 2)
}

/// Row `i` of the cofactor matrix times `n`.
pub open spec fn cofactor_product(m: Mat4, i: int, n: Vec3) -> int {
    cofactor(m, i, 0) * n.x + cofactor(m, i, 1) * n.y + cofactor(m, i, 2) * n.z
}

/// `n` under the inverse transpose of the upper-left 3x3 block, which is
/// the cofactor matrix over the determinant; the identity when the block
/// is singular.
pub open spec fn transform_normal(m: Mat4, n: Vec3) -> Vec3 {
    let d = det3(m);
    if d == 0 {
        n
    } else {
        Vec3 {
            x: saturate(div_floor(cofactor_product(m, 0, n) * ONE, d)) as i32,
            y: saturate(div_floor(cofactor_product(m, 1, n) * ONE, d)) as i32,
            z: saturate(div_floor(cofactor_product(m, 2, n) * ONE, d)) as i32,
        }
    }
}

fn row_product_exec(m: &Mat4, i: usize, p: Vec3) -> (s: i128)
    requires
        i < 4,
    ensures
        s == row_product(*m, i as int, p),
        -0x1_0000_0000_0000_0000 <= s <= 0x1_0000_0000_0000_0000,
{
    let row = m.m[i];
    proof {
        let b = 0x8000_0000;
        lemma_mul_bound(m.entry(i as int, 0), p.x as int, b, b);
        lemma_mul_bound(m.entry(i as int, 1), p.y as int, b, b);
        lemma_mul_bound(m.entry(i as int, 2), p.z as int, b, b);
        lemma_mul_bound(m.entry(i as int, 3), ONE as int, b, ONE as int);
    }
    row[0] as i128 * p.x as i128 + row[1] as i128 * p.y as i128 + row[2] as i128 * p.z as i128
        + row[3] as i128 * ONE as i128
}

fn project_exec(s: i128, w: i128) -> (r: i32)
    requires
        -0x1_0000_0000_0000_0000 <= s <= 0x1_0000_0000_0000_0000,
        -0x1_0000_0000_0000_0000 <= w <= 0x1_0000_0000_0000_0000,
    ensures
        r == project(s as int, w as int),
{
    if w == 0 {
        if s > 0 {
            i32::MAX
        } else if s < 0 {
            i32::MIN
        } else {
            0
        }
    } else {
        assert(-0x1_0000_0000_0000_0000_0000 <= s * ONE <= 0x1_0000_0000_0000_0000_0000) by (nonlinear_arith)
            requires
                -0x1_0000_0000_0000_0000 <= s <= 0x1_0000_0000_0000_0000,
        ;
        saturate_i32(floor_div(s * ONE as i128, w))
    }
}

fn cofactor_exec(m: &Mat4, i: usize, j: usize) -> (c: i128)
    requires
        i < 3,
        j < 3,
    ensures
        c == cofactor(*m, i as int, j as int),
        -0x8000_0000_0000_0000 <= c <= 0x8000_0000_0000_0000,
{
    let i1 = (i + 1) % 3;
    let i2 = (i + 2) % 3;
    let j1 = (j + 1) % 3;
    let j2 = (j + 2) % 3;
    let a = m.m[i1][j1] as i128;
    let b = m.m[i2][j2] as i128;
    let c = m.m[i1][j2] as i128;
    let d = m.m[i2][j1] as i128;
    proof {
        let bound = 0x8000_0000;
        lemma_mul_bound(a as int, b as int, bound, bound);
        lemma_mul_bound(c as int, d as int, bound, bound);
    }
    a * b - c * d
}

proof fn lemma_cofactor_term(c: int, n: int)
    requires
        -0x8000_0000_0000_0000 <= c <= 0x8000_0000_0000_0000,
        -0x8000_0000 <= n <= 0x8000_0000,
    ensures
        -0x4000_0000_0000_0000_0000_0000 <= c * n <= 0x4000_0000_0000_0000_0000_0000,
{
    lemma_mul_bound(c, n, 0x8000_0000_0000_0000, 0x8000_0000);
}

fn cofactor_product_exec(m: &Mat4, i: usize, n: Vec3) -> (s: i128)
    requires
        i < 3,
    ensures
        s == cofactor_product(*m, i as int, n),
        -0x1_0000_0000_0000_0000_0000_0000 <= s <= 0x1_0000_0000_0000_0000_0000_0000,
{
    let c0 = cofactor_exec(m, i, 0);
    let c1 = cofactor_exec(m, i, 1);
    let c2 = cofactor_exec(m, i, 2);
    proof {
        lemma_cofactor_term(c0 as int, n.x as int);
        lemma_cofactor_term(c1 as int, n.y as int);
        lemma_cofactor_term(c2 as int, n.z as int);
    }
    c0 * n.x as i128 + c1 * n.y as i128 + c2 * n.z as i128
}

fn det3_exec(m: &Mat4) -> (d: i128)
    ensures
        d == det3(*m),
        -0x1_0000_0000_0000_0000_0000_0000 <= d <= 0x1_0000_0000_0000_0000_0000_0000,
{
    let c0 = cofactor_exec(m, 0, 0);
    let c1 = cofactor_exec(m, 0, 1);
    let c2 = cofactor_exec(m, 0, 2);
    let a0 = m.m[0][0] as i128;
    let a1 = m.m[0][1] as i128;
    let a2 = m.m[0][2] as i128;
    proof {
        lemma_cofactor_term(c0 as int, a0 as int);
        lemma_cofactor_term(c1 as int, a1 as int);
        lemma_cofactor_term(c2 as int, a2 as int);
        assert(a0 * c0 == c0 * a0 && a1 * c1 == c1 * a1 && a2 * c2 == c2 * a2) by (nonlinear_arith);
    }
    a0 * c0 + a1 * c1 + a2 * c2
}

fn normal_component(m: &Mat4, i: usize, n: Vec3, d: i128) -> (r: i32)
    requires
        i < 3,
        d == det3(*m),
        d != 0,
        -0x1_0000_0000_0000_0000_0000_0000 <= d <= 0x1_0000_0000_0000_0000_0000_0000,
    ensures
        r == saturate(div_floor(cofactor_product(*m, i as int, n) * ONE, d as int)),
{
    let s = cofactor_product_exec(m, i, n);
    saturate_i32(floor_div(s * ONE as i128, d))
}

/// `v` with its transformed fields filled in for model matrix `m`.
pub open spec fn transformed(v: Vertex, m: Mat4) -> Vertex {
    Vertex {
        transformed_position: transform_position(m, v.position),
        transformed_normal: transform_normal(m, v.normal),
        ..v
    }
}

/// Transforms a vertex: its position by the model matrix followed by the
/// perspective division, its normal by the inverse transpose of the
/// matrix's linear part. The object-space fields are kept.
pub fn vertex_shader(vertex: &Vertex, uniforms: &Uniforms) -> (r: Vertex)
    ensures
        r == transformed(*vertex, uniforms.model_matrix),
{
    let m = &uniforms.model_matrix;
    let p = vertex.position;
    let w = row_product_exec(m, 3, p);
    let transformed_position = Vec3::new(
        project_exec(row_product_exec(m, 0, p), w),
        project_exec(row_product_exec(m, 1, p), w),
        project_exec(row_product_exec(m, 2, p), w),
    );
    let n = vertex.normal;
    let d = det3_exec(m);
    let transformed_normal = if d == 0 {
        n
    } else {
        Vec3::new(normal_component(m, 0, n, d), normal_component(m, 1, n, d), normal_component(m, 2, n, d))
    };
    Vertex { transformed_position, transformed_normal, ..*vertex }
}

proof fn lemma_scaled_quotient(v: int, k: int)
    requires
        k > 0,
    ensures
        div_floor(v * k * ONE, k * ONE) == v,
{
    assert(v * k * ONE == (k * ONE) * v) by (nonlinear_arith);
    assert(k * ONE > 0) by (nonlinear_arith)
        requires
            k > 0,
    ;
    vstd::arithmetic::div_mod::lemma_div_multiples_vanish(v, k * ONE);
}

/// Transforming a vertex with the identity matrix gives back its
/// object-space position (w is 1, no perspective distortion) and its
/// object-space normal.
pub proof fn lemma_identity_transform(vertex: Vertex, uniforms: Uniforms)
    requires
        uniforms.model_matrix.is_identity(),
    ensures
        transform_position(uniforms.model_matrix, vertex.position) == vertex.position,
        transform_normal(uniforms.model_matrix, vertex.normal) == vertex.normal,
{
    let m = uniforms.model_matrix;
    let p = vertex.position;
    let n = vertex.normal;
    let one = ONE as int;
    assert(m.entry(0, 0) == one && m.entry(0, 1) == 0 && m.entry(0, 2) == 0 && m.entry(0, 3) == 0);
    assert(m.entry(1, 0) == 0 && m.entry(1, 1) == one && m.entry(1, 2) == 0 && m.entry(1, 3) == 0);
    assert(m.entry(2, 0) == 0 && m.entry(2, 1) == 0 && m.entry(2, 2) == one && m.entry(2, 3) == 0);
    assert(m.entry(3, 0) == 0 && m.entry(3, 1) == 0 && m.entry(3, 2) == 0 && m.entry(3, 3) == one);
    assert(row_product(m, 3, p) == one * one);
    assert(row_product(m, 0, p) == p.x * one);
    assert(row_product(m, 1, p) == p.y * one);
    assert(row_product(m, 2, p) == p.z * one);
    lemma_scaled_quotient(p.x as int, one);
    lemma_scaled_quotient(p.y as int, one);
    lemma_scaled_quotient(p.z as int, one);
    assert(transform_position(m, p) == p);

    assert(1int % 3 == 1 && 2int % 3 == 2 && 3int % 3 == 0 && 4int % 3 == 1);
    assert(cofactor(m, 0, 0) == one * one && cofactor(m, 0, 1) == 0 && cofactor(m, 0, 2) == 0);
    assert(cofactor(m, 1, 0) == 0 && cofactor(m, 1, 1) == one * one && cofactor(m, 1, 2) == 0);
    assert(cofactor(m, 2, 0) == 0 && cofactor(m, 2, 1) == 0 && cofactor(m, 2, 2) == one * one);
    assert(det3(m) == one * one * one);
    lemma_scaled_quotient(n.x as int, one * one);
    lemma_scaled_quotient(n.y as int, one * one);
    lemma_scaled_quotient(n.z as int, one * one);
    assert(transform_normal(m, n) == n);
}

} // verus!
