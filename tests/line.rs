use renderer::color::Color;
use renderer::fixed::ONE;

use renderer::triangle::_triangle;
use renderer::vector::{Vec2, Vec3};
use renderer::vertex::Vertex;

const F: i32 = ONE as i32;

fn at(x: i32, y: i32, z: i32) -> Vertex {
    let mut v = Vertex::new(Vec3::new(x * F, y * F, z), Vec3::new(0, 0, F), Vec2::new(0, 0));
    v.color = Color::new(9, 8, 7);
    v
}

fn pixels(v1: &Vertex, v2: &Vertex) -> Vec<(i32, i32)> {
    renderer::line::line(v1, v2).iter().map(|f| (f.x, f.y)).collect()
}

#[test]
fn horizontal_line() {
    assert_eq!(pixels(&at(0, 0, 0), &at(5, 0, 0)), vec![(0, 0), (1, 0), (2, 0), (3, 0), (4, 0), (5, 0)]);
}

#[test]
fn reversed_line() {
    assert_eq!(pixels(&at(3, 1, 0), &at(0, 1, 0)), vec![(3, 1), (2, 1), (1, 1), (0, 1)]);
}

#[test]
fn diagonal_line() {
    assert_eq!(pixels(&at(0, 0, 0), &at(3, -3, 0)), vec![(0, 0), (1, -1), (2, -2), (3, -3)]);
}

#[test]
fn shallow_line_rounds_to_nearest_row() {
    assert_eq!(pixels(&at(0, 0, 0), &at(4, 1, 0)), vec![(0, 0), (1, 0), (2, 1), (3, 1), (4, 1)]);
}

#[test]
fn single_pixel_line() {
    let frags = renderer::line::line(&at(2, 2, 5), &at(2, 2, 9));
    assert_eq!(frags.len(), 1);
    assert_eq!((frags[0].x, frags[0].y, frags[0].depth), (2, 2, 5));
}

#[test]
fn line_depth_and_color() {
    let frags = renderer::line::line(&at(0, 0, 0), &at(4, 0, 4 * F));
    let depths: Vec<i64> = frags.iter().map(|f| f.depth).collect();
    assert_eq!(depths, vec![0, F as i64, 2 * F as i64, 3 * F as i64, 4 * F as i64]);
    assert!(frags.iter().all(|f| f.color == Color::new(9, 8, 7)));
}

#[test]
fn outline_is_three_lines() {
    let (a, b, c) = (at(0, 0, 0), at(4, 0, 0), at(0, 4, 0));
    let frags = _triangle(&a, &b, &c);
    assert_eq!(frags.len(), 15);
    let mut expected = renderer::line::line(&a, &b);
    expected.extend(renderer::line::line(&b, &c));
    expected.extend(renderer::line::line(&c, &a));
    assert_eq!(frags, expected);
    assert_eq!((frags[5].x, frags[5].y), (4, 0));
    assert_eq!((frags[6].x, frags[6].y), (3, 1));
    assert_eq!((frags[7].x, frags[7].y), (2, 2));
}
