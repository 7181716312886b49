use rgba_raster::{BufferPoint, RasterError, RgbaBufferGraphics, Triangle};

const RED: [u8; 4] = [255, 0, 0, 255];

fn surface(width: usize, height: usize) -> RgbaBufferGraphics {
    RgbaBufferGraphics::new(width, height, vec![0u8; width * height * 4])
}

fn p(x: usize, y: usize) -> BufferPoint {
    BufferPoint::new(x, y)
}

fn painted(g: &RgbaBufferGraphics) -> Vec<(usize, usize)> {
    let w = g.width();
    let b = g.buffer();
    (0..b.len() / 4).filter(|i| b[4 * i + 3] != 0).map(|i| (i % w, i / w)).collect()
}

#[test]
fn new_sorts_by_row_then_column() {
    let t = Triangle::new(p(4, 3), p(0, 4), p(1, 0));
    assert_eq!(t.vertices(), [p(1, 0), p(4, 3), p(0, 4)]);
    let t = Triangle::new(p(4, 0), p(2, 0), p(0, 0));
    assert_eq!(t.vertices(), [p(0, 0), p(2, 0), p(4, 0)]);
}

#[test]
fn flat_triangle_fills_its_row_segment() {
    let mut g = surface(6, 3);
    let t = Triangle::new(p(0, 0), p(4, 0), p(2, 0));
    assert_eq!(t.render(&mut g, RED), Ok(()));
    assert_eq!(painted(&g), vec![(0, 0), (1, 0), (2, 0), (3, 0), (4, 0)]);
}

#[test]
fn triangle_fill_matches_edge_pairs() {
    let mut g = surface(6, 6);
    let t = Triangle::new(p(1, 0), p(4, 3), p(0, 4));
    assert_eq!(t.render(&mut g, RED), Ok(()));
    let expected = vec![
        (1, 0),
        (1, 1), (2, 1),
        (1, 2), (2, 2), (3, 2),
        (0, 3), (1, 3), (2, 3), (3, 3), (4, 3),
        (0, 4),
    ];
    assert_eq!(painted(&g), expected);
}

#[test]
fn triangle_fill_rounds_edge_columns() {
    let mut g = surface(7, 7);
    let t = Triangle::new(p(0, 0), p(5, 2), p(1, 5));
    assert_eq!(t.render(&mut g, RED), Ok(()));
    let expected = vec![
        (0, 0),
        (0, 1), (1, 1), (2, 1), (3, 1),
        (0, 2), (1, 2), (2, 2), (3, 2), (4, 2), (5, 2),
        (1, 3), (2, 3), (3, 3), (4, 3),
        (1, 4), (2, 4),
        (1, 5),
    ];
    assert_eq!(painted(&g), expected);
}

#[test]
fn fill_stays_inside_bounding_box() {
    let mut g = surface(10, 10);
    let t = Triangle::new(p(3, 2), p(7, 5), p(4, 8));
    assert_eq!(t.render(&mut g, RED), Ok(()));
    let cells = painted(&g);
    assert!(!cells.is_empty());
    for (x, y) in cells {
        assert!((3..=7).contains(&x) && (2..=8).contains(&y), "({}, {})", x, y);
    }
}

#[test]
fn filled_pixels_take_the_color() {
    let mut g = surface(3, 3);
    let t = Triangle::new(p(0, 0), p(2, 0), p(0, 2));
    assert_eq!(t.render(&mut g, [9, 8, 7, 255]), Ok(()));
    let b = g.buffer();
    assert_eq!(&b[0..4], &[9, 8, 7, 255]);
    assert_eq!(&b[32..36], &[0, 0, 0, 0]);
}

#[test]
fn single_point_triangle_fills_one_pixel() {
    let mut g = surface(4, 4);
    let t = Triangle::new(p(2, 1), p(2, 1), p(2, 1));
    assert_eq!(t.render(&mut g, RED), Ok(()));
    assert_eq!(painted(&g), vec![(2, 1)]);
}

#[test]
fn vertex_outside_surface_is_an_error() {
    let mut g = surface(4, 4);
    let t = Triangle::new(p(0, 0), p(4, 1), p(1, 3));
    assert_eq!(t.render(&mut g, RED), Err(RasterError::OutOfBounds));
    assert_eq!(g.buffer(), &vec![0u8; 64]);
}
