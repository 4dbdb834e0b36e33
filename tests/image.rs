use rasterizer::{Image, ImageError, Pixel, Position};

const BLACK: Pixel = Pixel { red: 0, green: 0, blue: 0 };
const RED: Pixel = Pixel { red: 255, green: 0, blue: 0 };
const WHITE: Pixel = Pixel { red: 255, green: 255, blue: 255 };

fn pos(x: usize, y: usize) -> Position {
    Position { x, y }
}

fn painted(img: &Image, colour: Pixel) -> Vec<(usize, usize)> {
    let mut out = Vec::new();
    for y in 0..img.height() {
        for x in 0..img.width() {
            if img.get(&pos(x, y)) == Some(colour) {
                out.push((x, y));
            }
        }
    }
    out
}

#[test]
fn blank_is_black() {
    let img = Image::blank(3, 2).unwrap();
    assert_eq!(img.width(), 3);
    assert_eq!(img.height(), 2);
    assert_eq!(painted(&img, BLACK).len(), 6);
}

#[test]
fn blank_rejects_zero_dimension() {
    assert_eq!(Image::blank(0, 5).err(), Some(ImageError::InvalidDimension));
    assert_eq!(Image::blank(5, 0).err(), Some(ImageError::InvalidDimension));
    assert_eq!(Image::blank(0, 0).err(), Some(ImageError::InvalidDimension));
}

#[test]
fn write_then_read_in_bounds() {
    let mut img = Image::blank(4, 3).unwrap();
    img.set(RED, &pos(3, 2));
    assert_eq!(img.get(&pos(3, 2)), Some(RED));
    assert_eq!(painted(&img, RED), vec![(3, 2)]);
    img.set(WHITE, &pos(0, 0));
    assert_eq!(img.get(&pos(0, 0)), Some(WHITE));
    assert_eq!(img.get(&pos(3, 2)), Some(RED));
}

#[test]
fn write_out_of_bounds_is_ignored() {
    let mut img = Image::blank(4, 3).unwrap();
    let before = img.ppm();
    img.set(RED, &pos(4, 0));
    img.set(RED, &pos(0, 3));
    img.set(RED, &pos(usize::MAX, usize::MAX));
    assert_eq!(img.ppm(), before);
    assert_eq!(img.get(&pos(4, 0)), None);
}

#[test]
fn storage_is_row_major_from_the_top() {
    let mut img = Image::blank(2, 2).unwrap();
    img.set(Pixel { red: 1, green: 2, blue: 3 }, &pos(1, 0));
    img.set(Pixel { red: 4, green: 5, blue: 6 }, &pos(0, 1));
    let bytes = img.ppm();
    let header = b"P6\n2 2\n255\n";
    assert_eq!(&bytes[..header.len()], header);
    assert_eq!(&bytes[header.len()..], &[0, 0, 0, 1, 2, 3, 4, 5, 6, 0, 0, 0]);
}

#[test]
fn ppm_header_and_length_three_digits() {
    let img = Image::blank(100, 250).unwrap();
    let bytes = img.ppm();
    assert_eq!(bytes.len(), 15 + 100 * 250 * 3);
    assert_eq!(&bytes[..15], b"P6\n100 250\n255\n");
}

#[test]
fn ppm_header_and_length_other_digits() {
    let img = Image::blank(7, 1000).unwrap();
    let bytes = img.ppm();
    assert_eq!(bytes.len(), 9 + 1 + 4 + 7 * 1000 * 3);
    assert_eq!(&bytes[..14], b"P6\n7 1000\n255\n");
    assert!(bytes[14..].iter().all(|b| *b == 0));
}

#[test]
fn line_single_point() {
    let mut img = Image::blank(5, 5).unwrap();
    img.line(RED, &pos(0, 0), &pos(0, 0));
    assert_eq!(painted(&img, RED), vec![(0, 0)]);
}

#[test]
fn line_shallow_exact_pixels() {
    let mut img = Image::blank(6, 6).unwrap();
    img.line(RED, &pos(0, 0), &pos(4, 2));
    let mut got = painted(&img, RED);
    got.sort();
    assert_eq!(got, vec![(0, 0), (1, 0), (2, 1), (3, 1), (4, 2)]);
}

#[test]
fn line_steep_exact_pixels() {
    let mut img = Image::blank(6, 6).unwrap();
    img.line(RED, &pos(3, 0), &pos(1, 4));
    let mut got = painted(&img, RED);
    got.sort();
    assert_eq!(got, vec![(1, 4), (2, 2), (2, 3), (3, 0), (3, 1)]);
}

#[test]
fn line_diagonal_goes_one_pixel_per_row() {
    let mut img = Image::blank(5, 5).unwrap();
    img.line(RED, &pos(4, 0), &pos(0, 4));
    let mut got = painted(&img, RED);
    got.sort();
    assert_eq!(got, vec![(0, 4), (1, 3), (2, 2), (3, 1), (4, 0)]);
}

#[test]
fn line_is_symmetric() {
    let ends = [(0, 0, 7, 3), (7, 3, 0, 0), (2, 9, 5, 0), (9, 1, 0, 8), (3, 3, 3, 9), (0, 5, 9, 5)];
    for (ax, ay, bx, by) in ends {
        let mut one = Image::blank(10, 10).unwrap();
        let mut two = Image::blank(10, 10).unwrap();
        one.line(RED, &pos(ax, ay), &pos(bx, by));
        two.line(RED, &pos(bx, by), &pos(ax, ay));
        assert_eq!(one.ppm(), two.ppm());
    }
}

#[test]
fn line_horizontal_and_vertical() {
    let mut img = Image::blank(5, 5).unwrap();
    img.line(RED, &pos(4, 1), &pos(0, 1));
    img.line(WHITE, &pos(2, 4), &pos(2, 3));
    assert_eq!(painted(&img, RED), vec![(0, 1), (1, 1), (2, 1), (3, 1), (4, 1)]);
    assert_eq!(painted(&img, WHITE), vec![(2, 3), (2, 4)]);
}

#[test]
fn line_partly_off_screen_is_clipped() {
    let mut img = Image::blank(3, 3).unwrap();
    img.line(RED, &pos(0, 1), &pos(9, 1));
    assert_eq!(painted(&img, RED), vec![(0, 1), (1, 1), (2, 1)]);
}

#[test]
fn line_far_off_screen_changes_nothing() {
    let mut img = Image::blank(3, 3).unwrap();
    let before = img.ppm();
    img.line(RED, &pos(usize::MAX - 2, 0), &pos(usize::MAX, 1));
    img.line(RED, &pos(usize::MAX, usize::MAX), &pos(usize::MAX - 1, usize::MAX - 3));
    assert_eq!(img.ppm(), before);
}

#[test]
fn triangle_right_fills_fifteen_points() {
    let mut img = Image::blank(8, 8).unwrap();
    img.triangle(RED, &pos(0, 0), &pos(4, 0), &pos(0, 4));
    let got = painted(&img, RED);
    assert_eq!(got.len(), 15);
    assert!(got.iter().all(|(x, y)| x + y <= 4));
}

#[test]
fn triangle_swapped_vertices_are_culled() {
    let mut img = Image::blank(8, 8).unwrap();
    img.triangle(RED, &pos(4, 0), &pos(0, 0), &pos(0, 4));
    assert!(painted(&img, RED).is_empty());
    img.triangle(RED, &pos(3, 3), &pos(7, 3), &pos(3, 7));
    assert_eq!(painted(&img, RED).len(), 15);
    let mut other = Image::blank(8, 8).unwrap();
    other.triangle(RED, &pos(7, 3), &pos(3, 3), &pos(3, 7));
    assert!(painted(&other, RED).is_empty());
}

#[test]
fn triangle_rotated_vertices_fill_the_same() {
    let mut one = Image::blank(9, 9).unwrap();
    let mut two = Image::blank(9, 9).unwrap();
    one.triangle(RED, &pos(1, 1), &pos(8, 2), &pos(3, 7));
    two.triangle(RED, &pos(8, 2), &pos(3, 7), &pos(1, 1));
    assert_eq!(one.ppm(), two.ppm());
    assert!(!painted(&one, RED).is_empty());
}

#[test]
fn triangle_degenerate_draws_nothing() {
    let mut img = Image::blank(8, 8).unwrap();
    img.triangle(RED, &pos(0, 0), &pos(2, 2), &pos(5, 5));
    img.triangle(RED, &pos(3, 3), &pos(3, 3), &pos(3, 3));
    assert!(painted(&img, RED).is_empty());
}

#[test]
fn triangle_partly_off_screen_is_clipped() {
    let mut img = Image::blank(3, 3).unwrap();
    img.triangle(RED, &pos(0, 0), &pos(10, 0), &pos(0, 10));
    assert_eq!(painted(&img, RED).len(), 9);
}

#[test]
fn later_writes_win() {
    let mut img = Image::blank(8, 8).unwrap();
    img.triangle(RED, &pos(0, 0), &pos(4, 0), &pos(0, 4));
    img.line(WHITE, &pos(0, 0), &pos(4, 0));
    assert_eq!(painted(&img, WHITE).len(), 5);
    assert_eq!(painted(&img, RED).len(), 10);
}
