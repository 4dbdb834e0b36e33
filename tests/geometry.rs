use rasterizer::geometry::{bounding_box, triangle_orientation};
use rasterizer::noise::rand;
use rasterizer::obj::parse_face;
use rasterizer::{Pixel, Position, Triangle};

fn pos(x: usize, y: usize) -> Position {
    Position { x, y }
}

#[test]
fn orientation_signs() {
    assert_eq!(triangle_orientation(&pos(0, 0), &pos(4, 0), &pos(0, 4)), 1);
    assert_eq!(triangle_orientation(&pos(4, 0), &pos(0, 0), &pos(0, 4)), -1);
    assert_eq!(triangle_orientation(&pos(0, 0), &pos(1, 1), &pos(2, 2)), 0);
}

#[test]
fn orientation_is_exact_for_huge_coordinates() {
    let m = usize::MAX;
    assert_eq!(triangle_orientation(&pos(0, 0), &pos(m, 0), &pos(0, m)), 1);
    assert_eq!(triangle_orientation(&pos(m, 0), &pos(0, 0), &pos(0, m)), -1);
    assert_eq!(triangle_orientation(&pos(0, 0), &pos(m, m), &pos(m - 1, m - 1)), 0);
    assert_eq!(triangle_orientation(&pos(0, 0), &pos(m, m - 1), &pos(m - 1, m - 2)), -1);
}

#[test]
fn inside_triangle_includes_edges() {
    let (a, b, c) = (pos(0, 0), pos(4, 0), pos(0, 4));
    assert!(pos(0, 0).is_inside_triangle(&a, &b, &c));
    assert!(pos(2, 2).is_inside_triangle(&a, &b, &c));
    assert!(pos(1, 1).is_inside_triangle(&a, &b, &c));
    assert!(!pos(3, 2).is_inside_triangle(&a, &b, &c));
    assert!(!pos(5, 0).is_inside_triangle(&a, &b, &c));
}

#[test]
fn bounding_box_corners() {
    let (lo, hi) = bounding_box(&pos(5, 1), &pos(2, 9), &pos(7, 3));
    assert_eq!(lo, pos(2, 1));
    assert_eq!(hi, pos(7, 9));
}

#[test]
fn rand_exact_values() {
    assert_eq!(rand(0), 0);
    assert_eq!(rand(1), 33);
    assert_eq!(rand(123456789), 73);
    assert_eq!(rand(u128::MAX), 31);
    assert_eq!(rand(1 << 127), 0);
}

#[test]
fn pixel_and_face_values() {
    let p = Pixel::new(1, 2, 3);
    assert_eq!(p, Pixel { red: 1, green: 2, blue: 3 });
    let t = Triangle(2, 1, 0);
    assert_eq!(t.0 + t.1 + t.2, 3);
}

#[test]
fn parse_face_lines() {
    assert_eq!(parse_face(b"f 3/3/1 2/2/1 1/1/1"), Some(Triangle(2, 1, 0)));
    assert_eq!(parse_face(b"f 4/4/1 3/3/1 1/1/1"), Some(Triangle(3, 2, 0)));
    assert_eq!(parse_face(b"f  10 20\t30  "), Some(Triangle(9, 19, 29)));
    assert_eq!(parse_face(b"f 1// 2//7 3/"), Some(Triangle(0, 1, 2)));
}

#[test]
fn parse_face_rejects_malformed_lines() {
    assert_eq!(parse_face(b"f 1 2"), None);
    assert_eq!(parse_face(b"f 1 2 3 4"), None);
    assert_eq!(parse_face(b"f 0 1 2"), None);
    assert_eq!(parse_face(b"f 1 x 2"), None);
    assert_eq!(parse_face(b"f 1a 2 3"), None);
    assert_eq!(parse_face(b"f /1 2 3"), None);
    assert_eq!(parse_face(b"f 1 2 99999999999999999999999"), None);
    assert_eq!(parse_face(b""), None);
}

#[test]
fn parse_face_largest_index() {
    let line = format!("f 1 2 {}", usize::MAX);
    assert_eq!(parse_face(line.as_bytes()), Some(Triangle(0, 1, usize::MAX - 1)));
    let over = format!("f 1 2 {}0", usize::MAX / 10 + 1);
    assert_eq!(parse_face(over.as_bytes()), None);
}
