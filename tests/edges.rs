use rgba_raster::{BufferPoint, RasterError, RgbaBufferGraphics, RgbaTexture, Triangle};

#[test]
fn empty_surface_clears_to_nothing() {
    let mut g = RgbaBufferGraphics::new(0, 0, Vec::new());
    g.clear_color([1, 2, 3, 255]);
    assert!(g.buffer().is_empty());
    assert_eq!(g.coords_to_pixel_index(&BufferPoint::new(0, 0)), Err(RasterError::OutOfBounds));
}

#[test]
fn empty_texture_samples_transparent() {
    let t = RgbaTexture::empty(0, 0);
    assert_eq!(t.get_size(), (0, 0));
    assert_eq!(t.get_pixel(0, 0), [0, 0, 0, 0]);
    assert!(RgbaTexture::from_piston_image(0, 0, Vec::new()).is_some());
}

#[test]
fn one_pixel_surface_takes_a_point_triangle() {
    let mut g = RgbaBufferGraphics::new(1, 1, vec![0u8; 4]);
    let t = Triangle::new(BufferPoint::new(0, 0), BufferPoint::new(0, 0), BufferPoint::new(0, 0));
    assert_eq!(t.render(&mut g, [5, 6, 7, 255]), Ok(()));
    assert_eq!(g.into_buffer(), vec![5, 6, 7, 255]);
}

#[test]
fn triangle_reaching_far_corner_stays_in_surface() {
    let mut g = RgbaBufferGraphics::new(3, 3, vec![0u8; 36]);
    let t = Triangle::new(BufferPoint::new(2, 0), BufferPoint::new(0, 2), BufferPoint::new(2, 2));
    assert_eq!(t.render(&mut g, [1, 1, 1, 255]), Ok(()));
    let b = g.buffer();
    let lit: Vec<usize> = (0..9).filter(|i| b[4 * i + 3] == 255).collect();
    assert_eq!(lit, vec![2, 4, 5, 6, 7, 8]);
}
