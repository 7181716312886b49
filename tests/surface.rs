use rgba_raster::{BufferPoint, RasterError, RgbaBufferGraphics};

fn surface(width: usize, height: usize) -> RgbaBufferGraphics {
    RgbaBufferGraphics::new(width, height, vec![0u8; width * height * 4])
}

fn pixel(g: &RgbaBufferGraphics, i: usize) -> [u8; 4] {
    let b = g.buffer();
    [b[4 * i], b[4 * i + 1], b[4 * i + 2], b[4 * i + 3]]
}

#[test]
fn index_is_row_major() {
    let g = surface(5, 3);
    assert_eq!(g.coords_to_pixel_index(&BufferPoint::new(0, 0)), Ok(0));
    assert_eq!(g.coords_to_pixel_index(&BufferPoint::new(4, 0)), Ok(4));
    assert_eq!(g.coords_to_pixel_index(&BufferPoint::new(2, 1)), Ok(7));
    assert_eq!(g.coords_to_pixel_index(&BufferPoint::new(4, 2)), Ok(14));
}

#[test]
fn index_outside_is_an_error() {
    let g = surface(5, 3);
    assert_eq!(g.coords_to_pixel_index(&BufferPoint::new(5, 0)), Err(RasterError::OutOfBounds));
    assert_eq!(g.coords_to_pixel_index(&BufferPoint::new(0, 3)), Err(RasterError::OutOfBounds));
}

#[test]
fn transparent_write_changes_nothing() {
    let bytes: Vec<u8> = (0..16u8).map(|b| b * 7).collect();
    let mut g = RgbaBufferGraphics::new(2, 2, bytes.clone());
    for i in 0..4 {
        g.write_color_bytes(i, [200, 100, 50, 0]);
    }
    assert_eq!(g.buffer(), &bytes);
}

#[test]
fn opaque_write_replaces_pixel() {
    let mut g = RgbaBufferGraphics::new(1, 1, vec![10, 20, 30, 5]);
    g.write_color_bytes(0, [200, 100, 50, 255]);
    assert_eq!(pixel(&g, 0), [200, 100, 50, 255]);
}

#[test]
fn half_white_over_opaque_black_blends() {
    let mut g = RgbaBufferGraphics::new(1, 1, vec![0, 0, 0, 255]);
    g.write_color_bytes(0, [255, 255, 255, 128]);
    assert_eq!(pixel(&g, 0), [128, 128, 128, 255]);
}

#[test]
fn blend_rounds_down() {
    let mut g = RgbaBufferGraphics::new(1, 1, vec![100, 0, 255, 40]);
    g.write_color_bytes(0, [0, 200, 10, 51]);
    // (0*51 + 100*204)/255 = 80; (200*51)/255 = 40; (10*51 + 255*204)/255 = 206
    assert_eq!(pixel(&g, 0), [80, 40, 206, 255]);
}

#[test]
fn write_over_transparent_pixel_copies() {
    let mut g = RgbaBufferGraphics::new(1, 1, vec![9, 9, 9, 0]);
    g.write_color_bytes(0, [1, 2, 3, 4]);
    assert_eq!(pixel(&g, 0), [1, 2, 3, 4]);
}

#[test]
fn write_past_last_pixel_is_ignored() {
    let mut g = surface(2, 2);
    g.write_color_bytes(4, [1, 2, 3, 255]);
    g.write_color_bytes(usize::MAX, [1, 2, 3, 255]);
    assert_eq!(g.buffer(), &vec![0u8; 16]);
}

#[test]
fn opaque_clear_sets_every_pixel() {
    let bytes: Vec<u8> = (0..24u8).collect();
    let mut g = RgbaBufferGraphics::new(3, 2, bytes);
    g.clear_color([12, 34, 56, 255]);
    for i in 0..6 {
        assert_eq!(pixel(&g, i), [12, 34, 56, 255]);
    }
}

#[test]
fn translucent_clear_blends_each_pixel() {
    let mut g = RgbaBufferGraphics::new(2, 1, vec![0, 0, 0, 255, 7, 7, 7, 0]);
    g.clear_color([255, 255, 255, 128]);
    assert_eq!(pixel(&g, 0), [128, 128, 128, 255]);
    assert_eq!(pixel(&g, 1), [255, 255, 255, 128]);
}

#[test]
fn surface_reports_its_size_and_hands_buffer_back() {
    let g = surface(4, 3);
    assert_eq!(g.width(), 4);
    assert_eq!(g.height(), 3);
    assert_eq!(g.into_buffer().len(), 48);
}
