use renderer::fixed::ONE;
use renderer::fragment::Fragment;
use renderer::triangle::{
    barycentric_coordinates, calculate_bounding_box, edge_function, isqrt, normalize_vec, triangle,
};
use renderer::vector::{Vec2, Vec3};
use renderer::vertex::Vertex;

const F: i32 = ONE as i32;

fn screen_vertex(x: i32, y: i32, z: i32) -> Vertex {
    Vertex::new(Vec3::new(x, y, z), Vec3::new(0, 0, F), Vec2::new(0, 0))
}

fn flat(_p: Vec3, _n: Vec3) -> Vec3 {
    Vec3::new(F, 0, 0)
}

fn right_triangle(z: i32) -> (Vertex, Vertex, Vertex) {
    (screen_vertex(0, 0, z), screen_vertex(10 * F, 0, z), screen_vertex(0, 10 * F, z))
}

#[test]
fn edge_function_value() {
    let a = Vec3::new(0, 0, 0);
    let b = Vec3::new(10 * F, 0, 0);
    assert_eq!(edge_function(&a, &b, 0, 10 * F as i64), -100 * (F as i128) * (F as i128));
    assert_eq!(edge_function(&a, &b, 0, -2 * F as i64), 20 * (F as i128) * (F as i128));
    assert_eq!(edge_function(&a, &b, 5 * F as i64, 0), 0);
}

#[test]
fn bounding_box_floors_and_ceils() {
    let a = Vec3::new(F / 2, -F / 2, 0);
    let b = Vec3::new(3 * F + 1, 0, 0);
    let c = Vec3::new(0, 2 * F, 0);
    assert_eq!(calculate_bounding_box(&a, &b, &c), (0, -1, 4, 2));
}

#[test]
fn barycentric_numerators_sum_to_area() {
    let a = Vec3::new(0, 0, 0);
    let b = Vec3::new(10 * F, 0, 0);
    let c = Vec3::new(0, 10 * F, 0);
    let area = edge_function(&a, &b, c.x as i64, c.y as i64);
    let (w1, w2, w3) = barycentric_coordinates(2, 3, &a, &b, &c);
    assert_eq!(w1 + w2 + w3, area);
    let px = 2 * F as i128 + F as i128 / 2;
    let py = 3 * F as i128 + F as i128 / 2;
    assert_eq!(w2, -px * 10 * F as i128);
    assert_eq!(w3, -py * 10 * F as i128);
}

#[test]
fn right_triangle_covers_55_pixels_in_scan_order() {
    let (v1, v2, v3) = right_triangle(0);
    let frags = triangle(&v1, &v2, &v3, &flat);
    assert_eq!(frags.len(), 55);
    let mut expected = Vec::new();
    for y in 0..=10 {
        for x in 0..=10 {
            if x + y <= 9 {
                expected.push((x, y));
            }
        }
    }
    let got: Vec<(i32, i32)> = frags.iter().map(|f| (f.x, f.y)).collect();
    assert_eq!(got, expected);
    for f in &frags {
        assert_eq!(f.depth, 0);
        assert_eq!(f.color.to_hex(), 0xFF0000);
    }
}

#[test]
fn every_fragment_has_weights_in_unit_range_summing_to_one() {
    let v1 = screen_vertex(F / 3, F / 5, 0);
    let v2 = screen_vertex(9 * F + 7, 2 * F, 0);
    let v3 = screen_vertex(4 * F, 8 * F + F / 2, 0);
    let frags = triangle(&v1, &v2, &v3, &flat);
    assert!(!frags.is_empty());
    let (a, b, c) = (v1.transformed_position, v2.transformed_position, v3.transformed_position);
    let area = edge_function(&a, &b, c.x as i64, c.y as i64);
    for f in &frags {
        let (w1, w2, w3) = barycentric_coordinates(f.x as i64, f.y as i64, &a, &b, &c);
        assert_eq!(w1 + w2 + w3, area);
        for w in [w1, w2, w3] {
            let (lo, hi) = if area > 0 { (0, area) } else { (area, 0) };
            assert!(lo <= w && w <= hi);
        }
    }
}

#[test]
fn zero_area_triangle_gives_no_fragments() {
    let v1 = screen_vertex(0, 0, 0);
    let v2 = screen_vertex(5 * F, 5 * F, 0);
    let v3 = screen_vertex(10 * F, 10 * F, 0);
    assert!(triangle(&v1, &v2, &v3, &flat).is_empty());
    let p = screen_vertex(3 * F, 4 * F, 0);
    assert!(triangle(&p, &p, &p, &flat).is_empty());
}

#[test]
fn winding_order_does_not_matter() {
    let (v1, v2, v3) = right_triangle(0);
    let cw = triangle(&v1, &v2, &v3, &flat);
    let ccw = triangle(&v1, &v3, &v2, &flat);
    assert_eq!(cw, ccw);
}

#[test]
fn depth_is_interpolated() {
    let v1 = screen_vertex(0, 0, 0);
    let v2 = screen_vertex(10 * F, 0, 10 * F);
    let v3 = screen_vertex(0, 10 * F, 0);
    let frags = triangle(&v1, &v2, &v3, &flat);
    let f = frags.iter().find(|f| f.x == 3 && f.y == 2).unwrap();
    assert_eq!(f.depth, (3 * F + F / 2) as i64);
}

#[test]
fn shader_sees_interpolated_position_and_unit_normal() {
    let v1 = Vertex::new(Vec3::new(0, 0, 0), Vec3::new(0, 0, 2 * F), Vec2::new(0, 0));
    let v2 = Vertex::new(Vec3::new(10 * F, 0, 0), Vec3::new(0, 0, 2 * F), Vec2::new(0, 0));
    let v3 = Vertex::new(Vec3::new(0, 10 * F, 0), Vec3::new(0, 0, 2 * F), Vec2::new(0, 0));
    let shader = |p: Vec3, n: Vec3| Vec3::new(p.x / 16, p.y / 16, n.z);
    let frags = triangle(&v1, &v2, &v3, &shader);
    let f: &Fragment = frags.iter().find(|f| f.x == 3 && f.y == 2).unwrap();
    assert_eq!((f.color.r, f.color.g, f.color.b), (55, 39, 255));
}

#[test]
fn integer_square_root() {
    assert_eq!(isqrt(0), 0);
    assert_eq!(isqrt(1), 1);
    assert_eq!(isqrt(15), 3);
    assert_eq!(isqrt(16), 4);
    assert_eq!(isqrt(u64::MAX), 4294967295);
}

#[test]
fn normalize_to_fixed_point_unit() {
    assert_eq!(normalize_vec(Vec3::new(3 * F, 4 * F, 0)), Vec3::new(39321, 52428, 0));
    assert_eq!(normalize_vec(Vec3::new(0, 0, -7)), Vec3::new(0, 0, -F));
    assert_eq!(normalize_vec(Vec3::new(0, 0, 0)), Vec3::new(0, 0, 0));
    assert_eq!(normalize_vec(Vec3::new(i32::MIN, 0, 0)), Vec3::new(-F, 0, 0));
}

#[test]
fn fragments_are_exactly_the_covered_pixels() {
    let v1 = screen_vertex(-3 * F + 11, 7 * F / 3, 0);
    let v2 = screen_vertex(12 * F, -F / 2, 0);
    let v3 = screen_vertex(5 * F / 2, 13 * F + 5, 0);
    let (a, b, c) = (v1.transformed_position, v2.transformed_position, v3.transformed_position);
    let area = edge_function(&a, &b, c.x as i64, c.y as i64);
    let mut expected = Vec::new();
    for y in -10..25i64 {
        for x in -10..25i64 {
            let (w1, w2, w3) = barycentric_coordinates(x, y, &a, &b, &c);
            let inside = [w1, w2, w3].iter().all(|&w| if area > 0 { 0 <= w && w <= area } else { area <= w && w <= 0 });
            if inside {
                expected.push((x as i32, y as i32));
            }
        }
    }
    let got: Vec<(i32, i32)> = triangle(&v1, &v2, &v3, &flat).iter().map(|f| (f.x, f.y)).collect();
    assert!(!expected.is_empty());
    assert_eq!(got, expected);
}
