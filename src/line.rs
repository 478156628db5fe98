//! Line drawing between the screen positions of two vertices.

use vstd::prelude::*;
use crate::fixed::{ONE, div_floor, floor_div, lemma_mul_bound, lemma_pixel_bound};
use crate::fragment::Fragment;
use crate::vertex::Vertex;

verus! {

/// The pixel column or row holding fixed-point coordinate `v`.
pub open spec fn pixel_of(v: int) -> int {
    div_floor(v, ONE as int)
}

pub open spec fn abs(v: int) -> int {
    if v < 0 {
        -v
    } else {
        v
    }
}

/// The number of steps between the endpoints' pixels along the major axis.
pub open spec fn line_steps(v1: Vertex, v2: Vertex) -> int {
    let dx = pixel_of(v2.transformed_position.x as int) - pixel_of(v1.transformed_position.x as int);
    let dy = pixel_of(v2.transformed_position.y as int) - pixel_of(v1.transformed_position.y as int);
    if abs(dx) >= abs(dy) {
        abs(dx)
    } else {
        abs(dy)
    }
}

/// `m / n` rounded to the nearest integer, halves upwards.
pub open spec fn round_div(m: int, n: int) -> int {
    div_floor(2 * m + n, 2 * n)
}

/// Fragment `k` of the line from `v1` to `v2`: the pixel at step `k` of
/// `line_steps`, each coordinate rounded to the nearest pixel, with depth
/// interpolated and the first vertex's color.
pub open spec fn line_fragment(v1: Vertex, v2: Vertex, k: int) -> Fragment {
    let a = v1.transformed_position;
    let b = v2.transformed_position;
    let n = line_steps(v1, v2);
    let x0 = pixel_of(a.x as int);
    let y0 = pixel_of(a.y as int);
    let dx = pixel_of(b.x as int) - x0;
    let dy = pixel_of(b.y as int) - y0;
    if n == 0 {
        Fragment { x: x0 as i32, y: y0 as i32, color: v1.color, depth: a.z as i64 }
    } else {
        Fragment {
            x: (x0 + round_div(k * dx, n)) as i32,
            y: (y0 + round_div(k * dy, n)) as i32,
            color: v1.color,
            depth: (a.z + div_floor((b.z - a.z) * k, n)) as i64,
        }
    }
}

/// The fragments of the line from `v1` to `v2`, from the first endpoint's
/// pixel to the second's, one per step.
pub open spec fn line_fragments(v1: Vertex, v2: Vertex) -> Seq<Fragment> {
    Seq::new((line_steps(v1, v2) + 1) as nat, |k: int| line_fragment(v1, v2, k))
}

proof fn lemma_quotient_bound(m: int, d: int, bound: int)
    requires
        d > 0,
        bound >= 0,
        -(bound * d) <= m <= bound * d,
    ensures
        -bound <= m / d <= bound,
{
    vstd::arithmetic::div_mod::lemma_div_is_ordered(-(bound * d), m, d);
    vstd::arithmetic::div_mod::lemma_div_is_ordered(m, bound * d, d);
    vstd::arithmetic::div_mod::lemma_div_multiples_vanish(bound, d);
    vstd::arithmetic::div_mod::lemma_div_multiples_vanish(-bound, d);
    assert(bound * d == d * bound && -(bound * d) == d * (-bound)) by (nonlinear_arith);
}

/// Step `k` of `n` along a pixel difference `d` with `|d| <= n`, rounded.
fn step_offset(k: i64, d: i64, n: i64) -> (r: i64)
    requires
        0 <= k <= n,
        0 < n <= 0x1_0000,
        -n <= d <= n,
    ensures
        r == round_div(k * d, n as int),
        -(n + 1) <= r <= n + 1,
{
    proof {
        lemma_mul_bound(k as int, d as int, n as int, n as int);
        assert(n * n <= 0x1_0000_0000) by (nonlinear_arith)
            requires
                0 < n <= 0x1_0000,
        ;
        assert(-(2 * n * (n + 1)) <= 2 * (k * d) + n <= 2 * n * (n + 1)) by (nonlinear_arith)
            requires
                -(n * n) <= k * d <= n * n,
                n > 0,
        ;
        assert((n + 1) * (2 * n) == 2 * n * (n + 1)) by (nonlinear_arith);
        lemma_quotient_bound(2 * (k * d) + n, 2 * n, n + 1);
    }
    let m = 2 * (k as i128 * d as i128) + n as i128;
    floor_div(m, 2 * n as i128) as i64
}

/// The fragments of the line from `v1`'s screen pixel to `v2`'s.
pub fn line(v1: &Vertex, v2: &Vertex) -> (r: Vec<Fragment>)
    ensures
        r@ == line_fragments(*v1, *v2),
{
    let a = v1.transformed_position;
    let b = v2.transformed_position;
    let one = ONE as i128;
    proof {
        lemma_pixel_bound(a.x as int);
        lemma_pixel_bound(a.y as int);
        lemma_pixel_bound(b.x as int);
        lemma_pixel_bound(b.y as int);
    }
    let x0 = floor_div(a.x as i128, one) as i64;
    let y0 = floor_div(a.y as i128, one) as i64;
    let dx = floor_div(b.x as i128, one) as i64 - x0;
    let dy = floor_div(b.y as i128, one) as i64 - y0;
    let adx = if dx < 0 {
        -dx
    } else {
        dx
    };
    let ady = if dy < 0 {
        -dy
    } else {
        dy
    };
    let n = if adx >= ady {
        adx
    } else {
        ady
    };
    assert(n == line_steps(*v1, *v2));
    let mut fragments: Vec<Fragment> = Vec::new();
    if n == 0 {
        fragments.push(Fragment::new(x0 as i32, y0 as i32, v1.color, a.z as i64));
        assert(fragments@ =~= line_fragments(*v1, *v2));
        return fragments;
    }
    let dz = b.z as i64 - a.z as i64;
    let mut k: i64 = 0;
    while k <= n
        invariant
            0 < n <= 0x1_0000,
            n == line_steps(*v1, *v2),
            0 <= k <= n + 1,
            -0x8000 <= x0 <= 0x8000,
            -0x8000 <= y0 <= 0x8000,
            a == v1.transformed_position,
            b == v2.transformed_position,
            x0 == pixel_of(a.x as int),
            y0 == pixel_of(a.y as int),
            dx == pixel_of(b.x as int) - x0,
            dy == pixel_of(b.y as int) - y0,
            -n <= dx <= n,
            -n <= dy <= n,
            dz == b.z - a.z,
            fragments@ =~= Seq::new(k as nat, |j: int| line_fragment(*v1, *v2, j)),
        decreases n + 1 - k,
    {
        let x = x0 + step_offset(k, dx, n);
        let y = y0 + step_offset(k, dy, n);
        proof {
            lemma_mul_bound(dz as int, k as int, 0x1_0000_0000, n as int);
            lemma_quotient_bound(dz * k, n as int, 0x1_0000_0000);
        }
        let depth = a.z as i64 + floor_div(dz as i128 * k as i128, n as i128) as i64;
        fragments.push(Fragment::new(x as i32, y as i32, v1.color, depth));
        k = k + 1;
        assert(fragments@ =~= Seq::new(k as nat, |j: int| line_fragment(*v1, *v2, j)));
    }
    fragments
}

} // verus!
