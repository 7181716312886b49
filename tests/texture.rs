use rgba_raster::{BufferPoint, RasterError, RgbaBufferGraphics, RgbaTexture, TextureTriangle};

fn p(x: usize, y: usize) -> BufferPoint {
    BufferPoint::new(x, y)
}

fn numbered(width: u32, height: u32) -> RgbaTexture {
    let bytes: Vec<u8> = (0..width * height * 4).map(|b| b as u8).collect();
    RgbaTexture::from_bytes(width, height, &bytes)
}

#[test]
fn empty_texture_is_zeroed() {
    let t = RgbaTexture::empty(3, 2);
    assert_eq!(t.get_size(), (3, 2));
    assert_eq!(t.width(), 3);
    assert_eq!(t.height(), 2);
    for y in 0..2 {
        for x in 0..3 {
            assert_eq!(t.get_pixel(x, y), [0, 0, 0, 0]);
        }
    }
}

#[test]
fn get_pixel_reads_row_major() {
    let t = numbered(3, 2);
    assert_eq!(t.get_pixel(0, 0), [0, 1, 2, 3]);
    assert_eq!(t.get_pixel(2, 0), [8, 9, 10, 11]);
    assert_eq!(t.get_pixel(1, 1), [16, 17, 18, 19]);
}

#[test]
fn get_pixel_on_far_edges_is_transparent() {
    let t = numbered(3, 2);
    assert_eq!(t.get_pixel(3, 0), [0, 0, 0, 0]);
    assert_eq!(t.get_pixel(3, 1), [0, 0, 0, 0]);
    assert_eq!(t.get_pixel(0, 2), [0, 0, 0, 0]);
    assert_eq!(t.get_pixel(3, 2), [0, 0, 0, 0]);
}

#[test]
fn get_pixel_past_edges_is_transparent() {
    let t = numbered(3, 2);
    assert_eq!(t.get_pixel(4, 0), [0, 0, 0, 0]);
    assert_eq!(t.get_pixel(0, 3), [0, 0, 0, 0]);
    assert_eq!(t.get_pixel(u32::MAX, u32::MAX), [0, 0, 0, 0]);
}

#[test]
fn get_pixel_at_width_is_transparent_on_every_row() {
    let t = numbered(3, 2);
    assert_eq!(t.get_pixel(3, 0), [0, 0, 0, 0]);
    assert_eq!(t.get_pixel(3, 1), [0, 0, 0, 0]);
    let nines = RgbaTexture::from_bytes(2, 2, &[9u8; 16]);
    assert_eq!(nines.get_pixel(2, 0), [0, 0, 0, 0]);
    assert_eq!(nines.get_pixel(0, 2), [0, 0, 0, 0]);
    assert_eq!(nines.get_pixel(2, 2), [0, 0, 0, 0]);
    assert_eq!(nines.get_pixel(1, 1), [9, 9, 9, 9]);
}

#[test]
fn put_pixel_writes_row_major() {
    let mut t = RgbaTexture::empty(3, 2);
    assert_eq!(t.put_pixel(2, 1, [1, 2, 3, 4]), Ok(()));
    assert_eq!(t.get_pixel(2, 1), [1, 2, 3, 4]);
    assert_eq!(t.get_pixel(1, 2), [0, 0, 0, 0]);
    assert_eq!(t.get_pixel(2, 0), [0, 0, 0, 0]);
}

#[test]
fn put_pixel_outside_is_an_error() {
    let mut t = RgbaTexture::empty(3, 2);
    assert_eq!(t.put_pixel(3, 0, [1, 2, 3, 4]), Err(RasterError::OutOfBounds));
    assert_eq!(t.put_pixel(0, 2, [1, 2, 3, 4]), Err(RasterError::OutOfBounds));
}

#[test]
fn image_container_is_cut_to_its_pixels() {
    let raw: Vec<u8> = (0..20u8).collect();
    let t = RgbaTexture::from_piston_image(2, 2, raw).unwrap();
    assert_eq!(t.get_size(), (2, 2));
    assert_eq!(t.get_pixel(1, 1), [12, 13, 14, 15]);
    assert_eq!(t.get_pixel(0, 2), [0, 0, 0, 0]);
}

#[test]
fn short_image_container_is_refused() {
    assert!(RgbaTexture::from_piston_image(2, 2, vec![0u8; 15]).is_none());
}

#[test]
fn texture_triangle_keeps_pairs_when_sorting() {
    let tex = RgbaTexture::empty(4, 4);
    let t = TextureTriangle::new((p(5, 5), p(3, 3)), (p(1, 0), p(0, 1)), (p(0, 5), p(2, 2)), &tex);
    assert_eq!(t.vertices(), [p(1, 0), p(0, 5), p(5, 5)]);
    assert_eq!(t.texture_vertices(), [p(0, 1), p(2, 2), p(3, 3)]);
    assert_eq!(t.texture().get_size(), (4, 4));
}

#[test]
fn single_point_texture_triangle_writes_one_texel() {
    let tex = numbered(3, 3);
    let mut g = RgbaBufferGraphics::new(4, 4, vec![0u8; 64]);
    let t = TextureTriangle::new((p(2, 1), p(1, 2)), (p(2, 1), p(0, 0)), (p(2, 1), p(2, 2)), &tex);
    assert_eq!(t.render(&mut g), Ok(()));
    let b = g.buffer();
    let mut expected = vec![0u8; 64];
    expected[24..28].copy_from_slice(&tex.get_pixel(1, 2));
    assert_eq!(b, &expected);
    assert_eq!(&b[24..28], &[28, 29, 30, 31]);
}

#[test]
fn texture_triangle_samples_projected_texels() {
    let tex = numbered(5, 5);
    let mut g = RgbaBufferGraphics::new(4, 4, vec![0u8; 64]);
    let t = TextureTriangle::new((p(0, 0), p(2, 2)), (p(2, 0), p(0, 2)), (p(0, 2), p(2, 0)), &tex);
    assert_eq!(t.render(&mut g), Ok(()));
    let b = g.buffer();
    // Row 0 is painted twice with texel (0, 4); the second coat blends.
    assert_eq!(&b[0..4], &[80, 81, 82, 255]);
    assert_eq!(&b[8..12], &[80, 81, 82, 255]);
    assert_eq!(&b[12..16], &[0, 0, 0, 0]);
    // Rows 1 and 2 are painted once.
    assert_eq!(&b[16..20], &[80, 81, 82, 83]);
    assert_eq!(&b[20..24], &[80, 81, 82, 83]);
    assert_eq!(&b[24..28], &[0, 0, 0, 0]);
    // The third vertex maps onto its own texture vertex, texel (2, 0).
    assert_eq!(&b[32..36], &[8, 9, 10, 11]);
}

#[test]
fn texture_points_off_the_texture_leave_pixels_alone() {
    let tex = numbered(4, 4);
    let mut g = RgbaBufferGraphics::new(4, 4, vec![0u8; 64]);
    // Every pixel but the third vertex maps to texture point (2, -2).
    let t = TextureTriangle::new((p(0, 0), p(0, 0)), (p(2, 0), p(2, 0)), (p(0, 2), p(0, 2)), &tex);
    assert_eq!(t.render(&mut g), Ok(()));
    let b = g.buffer();
    assert_eq!(&b[0..16], &[0u8; 16]);
    assert_eq!(&b[16..20], &[0, 0, 0, 0]);
    assert_eq!(&b[32..36], &tex.get_pixel(0, 2));
    assert_eq!(&b[32..36], &[32, 33, 34, 35]);
}

#[test]
fn surface_vertex_outside_is_an_error() {
    let tex = RgbaTexture::empty(2, 2);
    let mut g = RgbaBufferGraphics::new(4, 4, vec![0u8; 64]);
    let t = TextureTriangle::new((p(0, 0), p(0, 0)), (p(4, 0), p(1, 0)), (p(0, 2), p(0, 1)), &tex);
    assert_eq!(t.render(&mut g), Err(RasterError::OutOfBounds));
    assert_eq!(g.buffer(), &vec![0u8; 64]);
}

#[test]
fn single_point_samples_first_texture_vertex_whatever_the_others() {
    let tex = RgbaTexture::from_bytes(2, 2, &[0, 0, 0, 0, 9, 8, 7, 255, 0, 0, 0, 0, 0, 0, 0, 0]);
    let mut g = RgbaBufferGraphics::new(4, 4, vec![0u8; 64]);
    let t = TextureTriangle::new((p(1, 1), p(1, 0)), (p(1, 1), p(5, 0)), (p(1, 1), p(0, 9)), &tex);
    assert_eq!(t.render(&mut g), Ok(()));
    let mut expected = vec![0u8; 64];
    expected[20..24].copy_from_slice(&[9, 8, 7, 255]);
    assert_eq!(g.buffer(), &expected);
}

#[test]
fn texture_vertex_off_the_texture_still_fills() {
    let tex = RgbaTexture::from_bytes(2, 2, &[1, 1, 1, 255, 2, 2, 2, 255, 3, 3, 3, 255, 4, 5, 6, 255]);
    let mut g = RgbaBufferGraphics::new(4, 4, vec![0u8; 64]);
    let t = TextureTriangle::new((p(0, 0), p(9, 9)), (p(2, 0), p(0, 0)), (p(0, 2), p(1, 1)), &tex);
    assert_eq!(t.render(&mut g), Ok(()));
    // The third vertex maps onto its own texture vertex, texel (1, 1).
    assert_eq!(&g.buffer()[32..36], &[4, 5, 6, 255]);
}

#[test]
fn single_point_far_off_the_texture_leaves_pixel_alone() {
    let tex = RgbaTexture::from_bytes(1, 1, &[9, 9, 9, 255]);
    let mut g = RgbaBufferGraphics::new(2, 2, vec![0u8; 16]);
    let far = p(usize::MAX, 0);
    let t = TextureTriangle::new((p(1, 0), far), (p(1, 0), far), (p(1, 0), far), &tex);
    assert_eq!(t.render(&mut g), Ok(()));
    assert_eq!(g.buffer(), &vec![0u8; 16]);
}
