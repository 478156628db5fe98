//! The rasterizer: barycentric scan conversion of one triangle into
//! fragments.
//!
//! Screen positions are fixed-point, so pixel `(x, y)` spans
//! `[x * ONE, (x + 1) * ONE)` and is sampled at its center. Barycentric
//! weights are kept as exact ratios: the weight of a vertex at a point is
//! the edge function of the opposite edge over the triangle's signed area.

use vstd::prelude::*;
use crate::fixed::{ONE, div_floor, floor_div, lemma_mul_bound, lemma_pixel_bound};
use crate::vector::Vec3;
use crate::vertex::Vertex;
use crate::fragment::Fragment;
use crate::color::{Color, channel_of};
use crate::line::line_fragments;

verus! {

/// The edge function of the directed edge `a -> b` at point `(px, py)`:
/// twice the signed area of the triangle `a, b, p`.
pub open spec fn edge(a: Vec3, b: Vec3, px: int, py: int) -> int {
    (px - a.x) * (b.y - a.y) - (py - a.y) * (b.x - a.x)
}

/// Twice the signed area of the triangle `a, b, c`.
pub open spec fn signed_area(a: Vec3, b: Vec3, c: Vec3) -> int {
    edge(a, b, c.x as int, c.y as int)
}

/// The fixed-point coordinate of the center of pixel column or row `x`.
pub open spec fn pixel_center(x: int) -> int {
    x * ONE + ONE / 2
}

/// The numerators of the three barycentric weights at the center of pixel
/// `(x, y)`; each weight is its numerator over `signed_area(a, b, c)`.
pub open spec fn weight_numerators(a: Vec3, b: Vec3, c: Vec3, x: int, y: int) -> (int, int, int) {
    let px = pixel_center(x);
    let py = pixel_center(y);
    (edge(b, c, px, py), edge(c, a, px, py), edge(a, b, px, py))
}

/// `e / area` lies in `[0, 1]`.
pub open spec fn in_unit(e: int, area: int) -> bool {
    if area > 0 {
        0 <= e <= area
    } else {
        area <= e <= 0
    }
}

/// The triangle has non-zero area, and at the center of pixel `(x, y)` its
/// three barycentric weights sum to 1 and each lies in `[0, 1]`.
pub open spec fn covers(a: Vec3, b: Vec3, c: Vec3, x: int, y: int) -> bool {
    let area = signed_area(a, b, c);
    let (w1, w2, w3) = weight_numerators(a, b, c, x, y);
    &&& area != 0
    &&& w1 + w2 + w3 == area
    &&& in_unit(w1, area)
    &&& in_unit(w2, area)
    &&& in_unit(w3, area)
}

pub open spec fn min3(a: int, b: int, c: int) -> int {
    if a <= b && a <= c {
        a
    } else if b <= c {
        b
    } else {
        c
    }
}

pub open spec fn max3(a: int, b: int, c: int) -> int {
    if a >= b && a >= c {
        a
    } else if b >= c {
        b
    } else {
        c
    }
}

/// The pixel bounding box `(min_x, min_y, max_x, max_y)` of the triangle:
/// floor of the least and ceiling of the greatest screen coordinate.
pub open spec fn bounding_box(a: Vec3, b: Vec3, c: Vec3) -> (int, int, int, int) {
    (
        div_floor(min3(a.x as int, b.x as int, c.x as int), ONE as int),
        div_floor(min3(a.y as int, b.y as int, c.y as int), ONE as int),
        -div_floor(-max3(a.x as int, b.x as int, c.x as int), ONE as int),
        -div_floor(-max3(a.y as int, b.y as int, c.y as int), ONE as int),
    )
}

/// The weighted mean `(u1 w1 + u2 w2 + u3 w3) / area` rounded down.
pub open spec fn interpolate(u1: int, u2: int, u3: int, w: (int, int, int), area: int) -> int {
    div_floor(u1 * w.0 + u2 * w.1 + u3 * w.2, area)
}

/// `r` is the integer square root of `s`.
pub open spec fn is_sqrt(r: int, s: int) -> bool {
    0 <= r && r * r <= s < (r + 1) * (r + 1)
}

pub open spec fn length_squared(v: Vec3) -> int {
    v.x * v.x + v.y * v.y + v.z * v.z
}

/// The integer part of the length of `v`.
pub open spec fn length(v: Vec3) -> int {
    choose|r: int| is_sqrt(r, length_squared(v))
}

/// `v` scaled to fixed-point unit length, each component rounded down; the
/// zero vector stays as it is.
pub open spec fn normalize(v: Vec3) -> Vec3 {
    let l = length(v);
    if l == 0 {
        v
    } else {
        Vec3 {
            x: div_floor(v.x * ONE, l) as i32,
            y: div_floor(v.y * ONE, l) as i32,
            z: div_floor(v.z * ONE, l) as i32,
        }
    }
}

proof fn lemma_expand(p: int, q: int, r: int, s: int)
    ensures
        (p - q) * (r - s) == p * r - p * s - q * r + q * s,
        p * r == r * p,
        p * s == s * p,
        q * r == r * q,
        q * s == s * q,
{
    assert((p - q) * (r - s) == p * r - p * s - q * r + q * s) by (nonlinear_arith);
    assert(p * r == r * p && p * s == s * p && q * r == r * q && q * s == s * q) by (nonlinear_arith);
}

/// The three edge functions at any pixel center sum to the triangle's
/// signed area, so the barycentric weights always sum to 1.
pub proof fn lemma_weights_sum_to_one(a: Vec3, b: Vec3, c: Vec3, x: int, y: int)
    ensures
        weight_numerators(a, b, c, x, y).0 + weight_numerators(a, b, c, x, y).1
            + weight_numerators(a, b, c, x, y).2 == signed_area(a, b, c),
{
    lemma_weights_sum_to_one_at(a, b, c, pixel_center(x), pixel_center(y));
}

proof fn lemma_weights_sum_to_one_at(a: Vec3, b: Vec3, c: Vec3, px: int, py: int)
    ensures
        edge(b, c, px, py) + edge(c, a, px, py) + edge(a, b, px, py) == signed_area(a, b, c),
{
    let (ax, ay, bx, by, cx, cy) = (a.x as int, a.y as int, b.x as int, b.y as int, c.x as int, c.y as int);
    lemma_expand(px, bx, cy, by);
    lemma_expand(py, by, cx, bx);
    lemma_expand(px, cx, ay, cy);
    lemma_expand(py, cy, ax, cx);
    lemma_expand(px, ax, by, ay);
    lemma_expand(py, ay, bx, ax);
    lemma_expand(cx, ax, by, ay);
    lemma_expand(cy, ay, bx, ax);
}

proof fn lemma_sqrt_unique(r1: int, r2: int, s: int)
    requires
        is_sqrt(r1, s),
        is_sqrt(r2, s),
    ensures
        r1 == r2,
{
    if r1 < r2 {
        assert((r1 + 1) * (r1 + 1) <= r2 * r2) by (nonlinear_arith)
            requires
                0 <= r1 < r2,
        ;
    } else if r2 < r1 {
        assert((r2 + 1) * (r2 + 1) <= r1 * r1) by (nonlinear_arith)
            requires
                0 <= r2 < r1,
        ;
    }
}

/// The integer square root of `s`, by bisection.
pub fn isqrt(s: u64) -> (r: u64)
    ensures
        is_sqrt(r as int, s as int),
{
    let mut lo: u128 = 0;
    let mut hi: u128 = 0x1_0000_0000;
    assert(hi * hi == 0x1_0000_0000_0000_0000) by (nonlinear_arith)
        requires
            hi == 0x1_0000_0000,
    ;
    while hi - lo > 1
        invariant
            lo < hi <= 0x1_0000_0000,
            lo * lo <= s,
            s < hi * hi,
        decreases hi - lo,
    {
        let mid = lo + (hi - lo) / 2;
        assert(mid * mid <= 0x1_0000_0000_0000_0000) by (nonlinear_arith)
            requires
                mid <= 0x1_0000_0000,
        ;
        if mid * mid <= s as u128 {
            lo = mid;
        } else {
            hi = mid;
        }
    }
    assert(lo <= 0xffff_ffff);
    lo as u64
}

proof fn lemma_component_within_length(c: int, l: int, s: int)
    requires
        is_sqrt(l, s),
        c * c <= s,
    ensures
        -l <= c <= l,
{
    if c > l {
        assert((l + 1) * (l + 1) <= c * c) by (nonlinear_arith)
            requires
                0 <= l < c,
        ;
    } else if c < -l {
        assert((l + 1) * (l + 1) <= c * c) by (nonlinear_arith)
            requires
                0 <= l,
                c < -l,
        ;
    }
}

fn unit_component(c: i32, l: u64) -> (r: i32)
    requires
        l > 0,
        -l <= c <= l,
    ensures
        r == div_floor(c * ONE, l as int),
        -ONE <= r <= ONE,
{
    assert(-0x8000_0000_0000 <= c * ONE <= 0x8000_0000_0000) by (nonlinear_arith)
        requires
            -0x8000_0000 <= c <= 0x8000_0000,
    ;
    let n = c as i128 * ONE as i128;
    proof {
        assert(-(l * ONE) <= c * ONE <= l * ONE) by (nonlinear_arith)
            requires
                -l <= c <= l,
        ;
        assert((l * ONE) / (l as int) == ONE) by {
            vstd::arithmetic::div_mod::lemma_div_multiples_vanish(ONE as int, l as int);
            assert(l * ONE == (l as int) * ONE) by (nonlinear_arith);
        }
        assert((-(l * ONE)) / (l as int) == -ONE) by {
            vstd::arithmetic::div_mod::lemma_div_multiples_vanish(-ONE, l as int);
            assert(-(l * ONE) == (l as int) * (-ONE)) by (nonlinear_arith);
        }
        vstd::arithmetic::div_mod::lemma_div_is_ordered(c * ONE, l * ONE, l as int);
        vstd::arithmetic::div_mod::lemma_div_is_ordered(-(l * ONE), c * ONE, l as int);
    }
    floor_div(n, l as i128) as i32
}

/// `v` scaled to fixed-point unit length; the zero vector stays as it is.
pub fn normalize_vec(v: Vec3) -> (r: Vec3)
    ensures
        r == normalize(v),
{
    let x = v.x as i64;
    let y = v.y as i64;
    let z = v.z as i64;
    proof {
        lemma_mul_bound(x as int, x as int, 0x8000_0000, 0x8000_0000);
        lemma_mul_bound(y as int, y as int, 0x8000_0000, 0x8000_0000);
        lemma_mul_bound(z as int, z as int, 0x8000_0000, 0x8000_0000);
        assert(x * x >= 0 && y * y >= 0 && z * z >= 0) by (nonlinear_arith);
    }
    let s = (x * x) as u64 + (y * y) as u64 + (z * z) as u64;
    let l = isqrt(s);
    proof {
        assert(s == length_squared(v));
        lemma_sqrt_unique(l as int, length(v), s as int);
    }
    if l == 0 {
        v
    } else {
        proof {
            assert(x * x >= 0 && y * y >= 0 && z * z >= 0) by (nonlinear_arith);
            lemma_component_within_length(x as int, l as int, s as int);
            lemma_component_within_length(y as int, l as int, s as int);
            lemma_component_within_length(z as int, l as int, s as int);
        }
        Vec3::new(unit_component(v.x, l), unit_component(v.y, l), unit_component(v.z, l))
    }
}

/// The color that a shading result gives: each channel scaled to 8 bits.
pub open spec fn color_of(rgb: Vec3) -> Color {
    Color {
        r: channel_of(rgb.x as int) as u8,
        g: channel_of(rgb.y as int) as u8,
        b: channel_of(rgb.z as int) as u8,
    }
}

/// The interpolated depth at pixel `(x, y)`.
pub open spec fn depth_at(v1: Vertex, v2: Vertex, v3: Vertex, x: int, y: int) -> int {
    let (a, b, c) = (v1.transformed_position, v2.transformed_position, v3.transformed_position);
    interpolate(a.z as int, b.z as int, c.z as int, weight_numerators(a, b, c, x, y), signed_area(a, b, c))
}

/// The interpolated object-space position at pixel `(x, y)`.
pub open spec fn position_at(v1: Vertex, v2: Vertex, v3: Vertex, x: int, y: int) -> Vec3 {
    let (a, b, c) = (v1.transformed_position, v2.transformed_position, v3.transformed_position);
    let w = weight_numerators(a, b, c, x, y);
    let area = signed_area(a, b, c);
    let (p1, p2, p3) = (v1.position, v2.position, v3.position);
    Vec3 {
        x: interpolate(p1.x as int, p2.x as int, p3.x as int, w, area) as i32,
        y: interpolate(p1.y as int, p2.y as int, p3.y as int, w, area) as i32,
        z: interpolate(p1.z as int, p2.z as int, p3.z as int, w, area) as i32,
    }
}

/// The interpolated and re-normalized transformed normal at pixel `(x, y)`.
pub open spec fn normal_at(v1: Vertex, v2: Vertex, v3: Vertex, x: int, y: int) -> Vec3 {
    let (a, b, c) = (v1.transformed_position, v2.transformed_position, v3.transformed_position);
    let w = weight_numerators(a, b, c, x, y);
    let area = signed_area(a, b, c);
    let (n1, n2, n3) = (v1.transformed_normal, v2.transformed_normal, v3.transformed_normal);
    normalize(
        Vec3 {
            x: interpolate(n1.x as int, n2.x as int, n3.x as int, w, area) as i32,
            y: interpolate(n1.y as int, n2.y as int, n3.y as int, w, area) as i32,
            z: interpolate(n1.z as int, n2.z as int, n3.z as int, w, area) as i32,
        },
    )
}

/// `f` is the fragment the triangle gives at its pixel: the pixel is
/// covered, the depth is interpolated, and the color is what `shader`
/// returned for the interpolated position and normal.
pub open spec fn is_fragment_of<F: Fn(Vec3, Vec3) -> Vec3>(
    v1: Vertex,
    v2: Vertex,
    v3: Vertex,
    shader: F,
    f: Fragment,
) -> bool {
    let (x, y) = (f.x as int, f.y as int);
    &&& covers(v1.transformed_position, v2.transformed_position, v3.transformed_position, x, y)
    &&& f.depth == depth_at(v1, v2, v3, x, y)
    &&& exists|rgb: Vec3|
        call_ensures(shader, (position_at(v1, v2, v3, x, y), normal_at(v1, v2, v3, x, y)), rgb)
            && f.color == color_of(rgb)
}

/// The covered pixels of row `y` with `x0 <= x < x_end`, left to right.
pub open spec fn row_pixels(a: Vec3, b: Vec3, c: Vec3, y: int, x0: int, x_end: int) -> Seq<(int, int)>
    decreases x_end - x0,
{
    if x_end <= x0 {
        seq![]
    } else {
        let x = x_end - 1;
        row_pixels(a, b, c, y, x0, x) + if covers(a, b, c, x, y) {
            seq![(x, y)]
        } else {
            seq![]
        }
    }
}

/// The covered pixels of rows `y0 <= y < y_end` with `x0 <= x <= x1`, in
/// scan order: by row, then left to right.
pub open spec fn rows_pixels(
    a: Vec3,
    b: Vec3,
    c: Vec3,
    x0: int,
    x1: int,
    y0: int,
    y_end: int,
) -> Seq<(int, int)>
    decreases y_end - y0,
{
    if y_end <= y0 {
        seq![]
    } else {
        rows_pixels(a, b, c, x0, x1, y0, y_end - 1) + row_pixels(a, b, c, y_end - 1, x0, x1 + 1)
    }
}

/// The covered pixels of the triangle's bounding box, in scan order.
pub open spec fn covered_pixels(a: Vec3, b: Vec3, c: Vec3) -> Seq<(int, int)> {
    let (x0, y0, x1, y1) = bounding_box(a, b, c);
    rows_pixels(a, b, c, x0, x1, y0, y1 + 1)
}

/// The pixel positions of a fragment sequence.
pub open spec fn pixels_of(frags: Seq<Fragment>) -> Seq<(int, int)> {
    frags.map_values(|f: Fragment| (f.x as int, f.y as int))
}

proof fn lemma_row_empty(a: Vec3, b: Vec3, c: Vec3, y: int, x0: int, x_end: int)
    requires
        signed_area(a, b, c) == 0,
    ensures
        row_pixels(a, b, c, y, x0, x_end).len() == 0,
    decreases x_end - x0,
{
    if x_end > x0 {
        lemma_row_empty(a, b, c, y, x0, x_end - 1);
    }
}

proof fn lemma_rows_empty(a: Vec3, b: Vec3, c: Vec3, x0: int, x1: int, y0: int, y_end: int)
    requires
        signed_area(a, b, c) == 0,
    ensures
        rows_pixels(a, b, c, x0, x1, y0, y_end).len() == 0,
    decreases y_end - y0,
{
    if y_end > y0 {
        lemma_rows_empty(a, b, c, x0, x1, y0, y_end - 1);
        lemma_row_empty(a, b, c, y_end - 1, x0, x1 + 1);
    }
}

/// A triangle of zero signed area covers no pixel.
pub proof fn lemma_degenerate_covers_nothing(a: Vec3, b: Vec3, c: Vec3)
    requires
        signed_area(a, b, c) == 0,
    ensures
        covered_pixels(a, b, c).len() == 0,
{
    let (x0, y0, x1, y1) = bounding_box(a, b, c);
    lemma_rows_empty(a, b, c, x0, x1, y0, y1 + 1);
}

/// The weighted vertex coordinates reconstruct the point: the sum of each
/// edge function times the opposite vertex's coordinate is the area times
/// the point's coordinate.
proof fn lemma_reconstruct(a: Vec3, b: Vec3, c: Vec3, px: int, py: int)
    ensures
        edge(b, c, px, py) * a.x + edge(c, a, px, py) * b.x + edge(a, b, px, py) * c.x
            == signed_area(a, b, c) * px,
        edge(b, c, px, py) * a.y + edge(c, a, px, py) * b.y + edge(a, b, px, py) * c.y
            == signed_area(a, b, c) * py,
{
    let (ax, ay) = (a.x as int, a.y as int);
    let (bx, by) = (b.x - ax, b.y - ay);
    let (cx, cy) = (c.x - ax, c.y - ay);
    let (ux, uy) = (px - ax, py - ay);
    let area = signed_area(a, b, c);
    let e1 = edge(b, c, px, py);
    let e2 = edge(c, a, px, py);
    let e3 = edge(a, b, px, py);
    assert(area == cx * by - cy * bx);
    assert(e3 == ux * by - uy * bx);
    assert(e2 == uy * cx - ux * cy) by (nonlinear_arith)
        requires
            e2 == (px - c.x) * (a.y - c.y) - (py - c.y) * (a.x - c.x),
            cx == c.x - ax,
            cy == c.y - ay,
            ux == px - ax,
            uy == py - ay,
            ax == a.x,
            ay == a.y,
    ;
    lemma_weights_sum_to_one_at(a, b, c, px, py);
    assert(e2 * bx + e3 * cx == area * ux) by (nonlinear_arith)
        requires
            e2 == uy * cx - ux * cy,
            e3 == ux * by - uy * bx,
            area == cx * by - cy * bx,
    ;
    assert(e2 * by + e3 * cy == area * uy) by (nonlinear_arith)
        requires
            e2 == uy * cx - ux * cy,
            e3 == ux * by - uy * bx,
            area == cx * by - cy * bx,
    ;
    assert(e1 * ax + e2 * b.x + e3 * c.x == area * px) by (nonlinear_arith)
        requires
            e1 + e2 + e3 == area,
            e2 * bx + e3 * cx == area * ux,
            bx == b.x - ax,
            cx == c.x - ax,
            ux == px - ax,
    ;
    assert(e1 * ay + e2 * b.y + e3 * c.y == area * py) by (nonlinear_arith)
        requires
            e1 + e2 + e3 == area,
            e2 * by + e3 * cy == area * uy,
            by == b.y - ay,
            cy == c.y - ay,
            uy == py - ay,
    ;
}

proof fn lemma_between(u1: int, u2: int, u3: int, w1: int, w2: int, w3: int, area: int, p: int)
    requires
        area != 0,
        w1 + w2 + w3 == area,
        in_unit(w1, area),
        in_unit(w2, area),
        in_unit(w3, area),
        w1 * u1 + w2 * u2 + w3 * u3 == area * p,
    ensures
        min3(u1, u2, u3) <= p <= max3(u1, u2, u3),
{
    let lo = min3(u1, u2, u3);
    let hi = max3(u1, u2, u3);
    assert(w1 * u1 == u1 * w1 && w2 * u2 == u2 * w2 && w3 * u3 == u3 * w3) by (nonlinear_arith);
    if area > 0 {
        lemma_convex(u1, u2, u3, w1, w2, w3, lo, hi);
        assert(lo <= p <= hi) by (nonlinear_arith)
            requires
                area > 0,
                lo * area <= area * p <= hi * area,
        ;
    } else {
        lemma_convex(u1, u2, u3, -w1, -w2, -w3, lo, hi);
        assert(u1 * (-w1) + u2 * (-w2) + u3 * (-w3) == -(area * p)) by (nonlinear_arith)
            requires
                u1 * w1 + u2 * w2 + u3 * w3 == area * p,
        ;
        assert(lo <= p <= hi) by (nonlinear_arith)
            requires
                area < 0,
                lo * (-area) <= -(area * p) <= hi * (-area),
        ;
    }
}

proof fn lemma_center_in_pixel_range(x: int, lo: int, hi: int)
    requires
        lo <= pixel_center(x) <= hi,
    ensures
        div_floor(lo, ONE as int) <= x <= -div_floor(-hi, ONE as int),
{
    let one = ONE as int;
    vstd::arithmetic::div_mod::lemma_fundamental_div_mod(lo, one);
    vstd::arithmetic::div_mod::lemma_mod_bound(lo, one);
    vstd::arithmetic::div_mod::lemma_fundamental_div_mod(-hi, one);
    vstd::arithmetic::div_mod::lemma_mod_bound(-hi, one);
}

/// A pixel whose center the triangle covers lies in its bounding box.
pub proof fn lemma_covered_in_box(a: Vec3, b: Vec3, c: Vec3, x: int, y: int)
    requires
        covers(a, b, c, x, y),
    ensures
        bounding_box(a, b, c).0 <= x <= bounding_box(a, b, c).2,
        bounding_box(a, b, c).1 <= y <= bounding_box(a, b, c).3,
{
    let px = pixel_center(x);
    let py = pixel_center(y);
    let (w1, w2, w3) = weight_numerators(a, b, c, x, y);
    let area = signed_area(a, b, c);
    lemma_reconstruct(a, b, c, px, py);
    lemma_between(a.x as int, b.x as int, c.x as int, w1, w2, w3, area, px);
    lemma_between(a.y as int, b.y as int, c.y as int, w1, w2, w3, area, py);
    lemma_center_in_pixel_range(x, min3(a.x as int, b.x as int, c.x as int), max3(a.x as int, b.x as int, c.x as int));
    lemma_center_in_pixel_range(y, min3(a.y as int, b.y as int, c.y as int), max3(a.y as int, b.y as int, c.y as int));
}

proof fn lemma_row_contains(a: Vec3, b: Vec3, c: Vec3, y: int, x0: int, x_end: int, p: (int, int))
    ensures
        row_pixels(a, b, c, y, x0, x_end).contains(p) <==> (p.1 == y && x0 <= p.0 < x_end && covers(
            a,
            b,
            c,
            p.0,
            p.1,
        )),
    decreases x_end - x0,
{
    if x_end > x0 {
        let x = x_end - 1;
        lemma_row_contains(a, b, c, y, x0, x, p);
        let tail = if covers(a, b, c, x, y) {
            seq![(x, y)]
        } else {
            seq![]
        };
        vstd::seq_lib::lemma_seq_concat_contains_all_elements(row_pixels(a, b, c, y, x0, x), tail, p);
        if tail.contains(p) {
            assert(tail[0] == p);
        }
        if p == (x, y) && covers(a, b, c, x, y) {
            assert(tail[0] == p);
        }
    }
}

proof fn lemma_rows_contains(
    a: Vec3,
    b: Vec3,
    c: Vec3,
    x0: int,
    x1: int,
    y0: int,
    y_end: int,
    p: (int, int),
)
    ensures
        rows_pixels(a, b, c, x0, x1, y0, y_end).contains(p) <==> (x0 <= p.0 <= x1 && y0 <= p.1 < y_end
            && covers(a, b, c, p.0, p.1)),
    decreases y_end - y0,
{
    if y_end > y0 {
        lemma_rows_contains(a, b, c, x0, x1, y0, y_end - 1, p);
        lemma_row_contains(a, b, c, y_end - 1, x0, x1 + 1, p);
        vstd::seq_lib::lemma_seq_concat_contains_all_elements(
            rows_pixels(a, b, c, x0, x1, y0, y_end - 1),
            row_pixels(a, b, c, y_end - 1, x0, x1 + 1),
            p,
        );
    }
}

/// The covered pixels of the bounding box are exactly the pixels whose
/// centers the triangle covers.
pub proof fn lemma_covered_pixels_exact(a: Vec3, b: Vec3, c: Vec3, x: int, y: int)
    ensures
        covered_pixels(a, b, c).contains((x, y)) <==> covers(a, b, c, x, y),
{
    let (x0, y0, x1, y1) = bounding_box(a, b, c);
    lemma_rows_contains(a, b, c, x0, x1, y0, y1 + 1, (x, y));
    if covers(a, b, c, x, y) {
        lemma_covered_in_box(a, b, c, x, y);
    }
}

proof fn lemma_all_covered_pixels(a: Vec3, b: Vec3, c: Vec3)
    ensures
        forall|x: int, y: int| #[trigger] covered_pixels(a, b, c).contains((x, y)) <==> covers(a, b, c, x, y),
{
    assert forall|x: int, y: int| #[trigger] covered_pixels(a, b, c).contains((x, y)) <==> covers(a, b, c, x, y) by {
        lemma_covered_pixels_exact(a, b, c, x, y);
    }
}

/// The edge function of `a -> b` at the fixed-point point `(px, py)`.
pub fn edge_function(a: &Vec3, b: &Vec3, px: i64, py: i64) -> (e: i128)
    requires
        -0x1_0000_0000 <= px <= 0x1_0000_0000,
        -0x1_0000_0000 <= py <= 0x1_0000_0000,
    ensures
        e == edge(*a, *b, px as int, py as int),
        -0x8_0000_0000_0000_0000 <= e <= 0x8_0000_0000_0000_0000,
{
    let dx = px as i128 - a.x as i128;
    let dy = py as i128 - a.y as i128;
    let ex = b.x as i128 - a.x as i128;
    let ey = b.y as i128 - a.y as i128;
    proof {
        lemma_mul_bound(dx as int, ey as int, 0x2_0000_0000, 0x1_0000_0000);
        lemma_mul_bound(dy as int, ex as int, 0x2_0000_0000, 0x1_0000_0000);
    }
    dx * ey - dy * ex
}

/// The pixel bounding box `(min_x, min_y, max_x, max_y)` of three screen
/// positions.
pub fn calculate_bounding_box(a: &Vec3, b: &Vec3, c: &Vec3) -> (r: (i64, i64, i64, i64))
    ensures
        bounding_box(*a, *b, *c) == (r.0 as int, r.1 as int, r.2 as int, r.3 as int),
        -0x8000 <= r.0 <= 0x8000,
        -0x8000 <= r.1 <= 0x8000,
        -0x8000 <= r.2 <= 0x8000,
        -0x8000 <= r.3 <= 0x8000,
{
    let lo_x = min3_exec(a.x, b.x, c.x);
    let lo_y = min3_exec(a.y, b.y, c.y);
    let hi_x = max3_exec(a.x, b.x, c.x);
    let hi_y = max3_exec(a.y, b.y, c.y);
    let one = ONE as i128;
    let min_x = floor_div(lo_x as i128, one);
    let min_y = floor_div(lo_y as i128, one);
    let max_x = -floor_div(-(hi_x as i128), one);
    let max_y = -floor_div(-(hi_y as i128), one);
    proof {
        lemma_pixel_bound(lo_x as int);
        lemma_pixel_bound(lo_y as int);
        lemma_pixel_bound(-hi_x);
        lemma_pixel_bound(-hi_y);
    }
    (min_x as i64, min_y as i64, max_x as i64, max_y as i64)
}

fn min3_exec(a: i32, b: i32, c: i32) -> (r: i32)
    ensures
        r == min3(a as int, b as int, c as int),
{
    if a <= b && a <= c {
        a
    } else if b <= c {
        b
    } else {
        c
    }
}

fn max3_exec(a: i32, b: i32, c: i32) -> (r: i32)
    ensures
        r == max3(a as int, b as int, c as int),
{
    if a >= b && a >= c {
        a
    } else if b >= c {
        b
    } else {
        c
    }
}

/// The numerators of the barycentric weights at the center of pixel
/// `(x, y)`; the weights are these over the triangle's signed area.
pub fn barycentric_coordinates(x: i64, y: i64, a: &Vec3, b: &Vec3, c: &Vec3) -> (w: (i128, i128, i128))
    requires
        -0x8000 <= x <= 0x8000,
        -0x8000 <= y <= 0x8000,
    ensures
        (w.0 as int, w.1 as int, w.2 as int) == weight_numerators(*a, *b, *c, x as int, y as int),
        -0x8_0000_0000_0000_0000 <= w.0 <= 0x8_0000_0000_0000_0000,
        -0x8_0000_0000_0000_0000 <= w.1 <= 0x8_0000_0000_0000_0000,
        -0x8_0000_0000_0000_0000 <= w.2 <= 0x8_0000_0000_0000_0000,
{
    let px = x * ONE + ONE / 2;
    let py = y * ONE + ONE / 2;
    (edge_function(b, c, px, py), edge_function(c, a, px, py), edge_function(a, b, px, py))
}

fn in_unit_exec(e: i128, area: i128) -> (r: bool)
    ensures
        r == in_unit(e as int, area as int),
{
    if area > 0 {
        0 <= e && e <= area
    } else {
        area <= e && e <= 0
    }
}

proof fn lemma_convex(u1: int, u2: int, u3: int, w1: int, w2: int, w3: int, lo: int, hi: int)
    requires
        0 <= w1,
        0 <= w2,
        0 <= w3,
        lo <= u1 <= hi,
        lo <= u2 <= hi,
        lo <= u3 <= hi,
    ensures
        lo * (w1 + w2 + w3) <= u1 * w1 + u2 * w2 + u3 * w3 <= hi * (w1 + w2 + w3),
{
    assert(lo * w1 <= u1 * w1 <= hi * w1) by (nonlinear_arith)
        requires
            0 <= w1,
            lo <= u1 <= hi,
    ;
    assert(lo * w2 <= u2 * w2 <= hi * w2) by (nonlinear_arith)
        requires
            0 <= w2,
            lo <= u2 <= hi,
    ;
    assert(lo * w3 <= u3 * w3 <= hi * w3) by (nonlinear_arith)
        requires
            0 <= w3,
            lo <= u3 <= hi,
    ;
    assert(lo * (w1 + w2 + w3) == lo * w1 + lo * w2 + lo * w3) by (nonlinear_arith);
    assert(hi * (w1 + w2 + w3) == hi * w1 + hi * w2 + hi * w3) by (nonlinear_arith);
}

proof fn lemma_quotient_in_range(n: int, d: int, lo: int, hi: int)
    requires
        d > 0,
        lo * d <= n <= hi * d,
    ensures
        lo <= n / d <= hi,
{
    vstd::arithmetic::div_mod::lemma_div_is_ordered(lo * d, n, d);
    vstd::arithmetic::div_mod::lemma_div_is_ordered(n, hi * d, d);
    vstd::arithmetic::div_mod::lemma_div_multiples_vanish(lo, d);
    vstd::arithmetic::div_mod::lemma_div_multiples_vanish(hi, d);
    assert(lo * d == d * lo && hi * d == d * hi) by (nonlinear_arith);
}

/// The interpolation at a covered point is a convex combination, so it
/// stays within the range of `i32`.
fn interpolate_exec(u1: i32, u2: i32, u3: i32, w: (i128, i128, i128), area: i128) -> (r: i32)
    requires
        area != 0,
        w.0 + w.1 + w.2 == area,
        in_unit(w.0 as int, area as int),
        in_unit(w.1 as int, area as int),
        in_unit(w.2 as int, area as int),
        -0x8_0000_0000_0000_0000 <= w.0 <= 0x8_0000_0000_0000_0000,
        -0x8_0000_0000_0000_0000 <= w.1 <= 0x8_0000_0000_0000_0000,
        -0x8_0000_0000_0000_0000 <= w.2 <= 0x8_0000_0000_0000_0000,
    ensures
        r == interpolate(u1 as int, u2 as int, u3 as int, (w.0 as int, w.1 as int, w.2 as int), area as int),
{
    let (w1, w2, w3) = w;
    proof {
        let b = 0x8000_0000int;
        let bw = 0x8_0000_0000_0000_0000int;
        lemma_mul_bound(u1 as int, w1 as int, b, bw);
        lemma_mul_bound(u2 as int, w2 as int, b, bw);
        lemma_mul_bound(u3 as int, w3 as int, b, bw);
    }
    let n = u1 as i128 * w1 + u2 as i128 * w2 + u3 as i128 * w3;
    proof {
        let lo = i32::MIN as int;
        let hi = i32::MAX as int;
        if area > 0 {
            lemma_convex(u1 as int, u2 as int, u3 as int, w1 as int, w2 as int, w3 as int, lo, hi);
            lemma_quotient_in_range(n as int, area as int, lo, hi);
        } else {
            lemma_convex(u1 as int, u2 as int, u3 as int, -w1, -w2, -w3, lo, hi);
            assert(u1 * (-w1) + u2 * (-w2) + u3 * (-w3) == -n) by (nonlinear_arith)
                requires
                    n == u1 * w1 + u2 * w2 + u3 * w3,
            ;
            lemma_quotient_in_range(-n, -area, lo, hi);
        }
    }
    floor_div(n, area) as i32
}

/// Rasterizes one triangle of transformed vertices. Every pixel of the
/// bounding box whose center the triangle covers (barycentric weights all
/// in `[0, 1]`, edges included) gives one fragment, in scan order: its
/// depth is the interpolated transformed depth, its color what `shader`
/// returns for the interpolated object-space position and the interpolated,
/// re-normalized transformed normal. A triangle of zero area gives none.
pub fn triangle<F: Fn(Vec3, Vec3) -> Vec3>(v1: &Vertex, v2: &Vertex, v3: &Vertex, shader: &F) -> (r: Vec<Fragment>)
    requires
        forall|p: Vec3, n: Vec3| call_requires(*shader, (p, n)),
    ensures
        pixels_of(r@) == covered_pixels(v1.transformed_position, v2.transformed_position, v3.transformed_position),
        forall|i: int| 0 <= i < r@.len() ==> is_fragment_of(*v1, *v2, *v3, *shader, #[trigger] r@[i]),
        signed_area(v1.transformed_position, v2.transformed_position, v3.transformed_position) == 0 ==> r@.len() == 0,
        forall|x: int, y: int|
            #[trigger] pixels_of(r@).contains((x, y)) <==> covers(
                v1.transformed_position,
                v2.transformed_position,
                v3.transformed_position,
                x,
                y,
            ),
{
    let a = v1.transformed_position;
    let b = v2.transformed_position;
    let c = v3.transformed_position;
    let mut fragments: Vec<Fragment> = Vec::new();
    let (min_x, min_y, max_x, max_y) = calculate_bounding_box(&a, &b, &c);
    let area = edge_function(&a, &b, c.x as i64, c.y as i64);
    if area == 0 {
        proof {
            lemma_degenerate_covers_nothing(a, b, c);
            assert(pixels_of(fragments@) =~= covered_pixels(a, b, c));
            lemma_all_covered_pixels(a, b, c);
        }
        return fragments;
    }
    let mut y = min_y;
    assert(pixels_of(fragments@) =~= rows_pixels(a, b, c, min_x as int, max_x as int, min_y as int, y as int));
    while y <= max_y
        invariant
            forall|p: Vec3, n: Vec3| call_requires(*shader, (p, n)),
            a == v1.transformed_position,
            b == v2.transformed_position,
            c == v3.transformed_position,
            area == signed_area(a, b, c),
            area != 0,
            bounding_box(a, b, c) == (min_x as int, min_y as int, max_x as int, max_y as int),
            -0x8000 <= min_x <= 0x8000,
            -0x8000 <= max_x <= 0x8000,
            -0x8000 <= min_y <= y,
            y <= max_y + 1,
            max_y <= 0x8000,
            pixels_of(fragments@) == rows_pixels(a, b, c, min_x as int, max_x as int, min_y as int, y as int),
            forall|i: int| 0 <= i < fragments@.len() ==> is_fragment_of(*v1, *v2, *v3, *shader, #[trigger] fragments@[i]),
        decreases max_y + 1 - y,
    {
        let mut x = min_x;
        while x <= max_x
            invariant
                forall|p: Vec3, n: Vec3| call_requires(*shader, (p, n)),
                a == v1.transformed_position,
                b == v2.transformed_position,
                c == v3.transformed_position,
                area == signed_area(a, b, c),
                area != 0,
                -0x8000 <= min_x <= x,
                x <= max_x + 1,
                max_x <= 0x8000,
                -0x8000 <= y <= 0x8000,
                pixels_of(fragments@) == rows_pixels(a, b, c, min_x as int, max_x as int, min_y as int, y as int)
                    + row_pixels(a, b, c, y as int, min_x as int, x as int),
                forall|i: int| 0 <= i < fragments@.len() ==> is_fragment_of(*v1, *v2, *v3, *shader, #[trigger] fragments@[i]),
            decreases max_x + 1 - x,
        {
            let w = barycentric_coordinates(x, y, &a, &b, &c);
            let ghost before = fragments@;
            proof {
                lemma_weights_sum_to_one(a, b, c, x as int, y as int);
            }
            if in_unit_exec(w.0, area) && in_unit_exec(w.1, area) && in_unit_exec(w.2, area) {
                let position = Vec3::new(
                    interpolate_exec(v1.position.x, v2.position.x, v3.position.x, w, area),
                    interpolate_exec(v1.position.y, v2.position.y, v3.position.y, w, area),
                    interpolate_exec(v1.position.z, v2.position.z, v3.position.z, w, area),
                );
                let n1 = v1.transformed_normal;
                let n2 = v2.transformed_normal;
                let n3 = v3.transformed_normal;
                let normal = normalize_vec(Vec3::new(
                    interpolate_exec(n1.x, n2.x, n3.x, w, area),
                    interpolate_exec(n1.y, n2.y, n3.y, w, area),
                    interpolate_exec(n1.z, n2.z, n3.z, w, area),
                ));
                let rgb = shader(position, normal);
                let color = Color::from_intensity(rgb);
                let depth = interpolate_exec(a.z, b.z, c.z, w, area);
                let f = Fragment::new(x as i32, y as i32, color, depth as i64);
                fragments.push(f);
                proof {
                    assert(call_ensures(*shader, (position, normal), rgb));
                    assert(f.color == color_of(rgb));
                    assert(f.x as int == x && f.y as int == y);
                    assert(is_fragment_of(*v1, *v2, *v3, *shader, f));
                    assert(pixels_of(fragments@) =~= pixels_of(before) + seq![(x as int, y as int)]);
                }
            } else {
                assert(fragments@ == before);
            }
            x = x + 1;
        }
        y = y + 1;
    }
    proof {
        lemma_all_covered_pixels(a, b, c);
    }
    fragments
}

/// The outline of a triangle: the lines `v1 -> v2`, `v2 -> v3` and
/// `v3 -> v1`, one after the other.
pub fn _triangle(v1: &Vertex, v2: &Vertex, v3: &Vertex) -> (r: Vec<Fragment>)
    ensures
        r@ == line_fragments(*v1, *v2) + line_fragments(*v2, *v3) + line_fragments(*v3, *v1),
{
    let mut fragments: Vec<Fragment> = Vec::new();
    let mut side = crate::line::line(v1, v2);
    fragments.append(&mut side);
    let mut side = crate::line::line(v2, v3);
    fragments.append(&mut side);
    let mut side = crate::line::line(v3, v1);
    fragments.append(&mut side);
    assert(fragments@ =~= line_fragments(*v1, *v2) + line_fragments(*v2, *v3) + line_fragments(*v3, *v1));
    fragments
}

} // verus!
