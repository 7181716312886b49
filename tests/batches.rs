use rgba_raster::{BufferPoint, RasterError, RgbaBufferGraphics, RgbaTexture};

fn p(x: usize, y: usize) -> BufferPoint {
    BufferPoint::new(x, y)
}

fn painted(g: &RgbaBufferGraphics) -> Vec<(usize, usize)> {
    let w = g.width();
    let b = g.buffer();
    (0..b.len() / 4).filter(|i| b[4 * i + 3] != 0).map(|i| (i % w, i / w)).collect()
}

#[test]
fn tri_list_draws_each_triple() {
    let mut g = RgbaBufferGraphics::new(6, 3, vec![0u8; 72]);
    let verts = [p(0, 0), p(1, 0), p(0, 0), p(5, 2), p(3, 2), p(4, 2), p(5, 0)];
    assert_eq!(g.tri_list([1, 2, 3, 255], &verts), Ok(()));
    assert_eq!(painted(&g), vec![(0, 0), (1, 0), (3, 2), (4, 2), (5, 2)]);
    assert_eq!(&g.buffer()[0..4], &[1, 2, 3, 255]);
}

#[test]
fn tri_list_with_a_vertex_outside_draws_nothing() {
    let mut g = RgbaBufferGraphics::new(4, 4, vec![0u8; 64]);
    let verts = [p(0, 0), p(1, 0), p(0, 1), p(0, 0), p(4, 0), p(0, 1)];
    assert_eq!(g.tri_list([1, 2, 3, 255], &verts), Err(RasterError::OutOfBounds));
    assert_eq!(g.buffer(), &vec![0u8; 64]);
}

#[test]
fn tri_list_ignores_leftover_vertices() {
    let mut g = RgbaBufferGraphics::new(4, 4, vec![0u8; 64]);
    let verts = [p(1, 1), p(9, 9)];
    assert_eq!(g.tri_list([1, 2, 3, 255], &verts), Ok(()));
    assert_eq!(g.buffer(), &vec![0u8; 64]);
}

#[test]
fn tri_list_uv_samples_the_texture() {
    let bytes: Vec<u8> = (0..36u8).collect();
    let tex = RgbaTexture::from_bytes(3, 3, &bytes);
    let mut g = RgbaBufferGraphics::new(4, 4, vec![0u8; 64]);
    let verts = [p(1, 1), p(1, 1), p(1, 1), p(3, 3), p(3, 3), p(3, 3)];
    let uvs = [p(2, 0), p(0, 0), p(0, 0), p(1, 2), p(0, 0), p(0, 0)];
    assert_eq!(g.tri_list_uv(&tex, &verts, &uvs), Ok(()));
    assert_eq!(painted(&g), vec![(1, 1), (3, 3)]);
    assert_eq!(&g.buffer()[20..24], &[8, 9, 10, 11]);
    assert_eq!(&g.buffer()[60..64], &[28, 29, 30, 31]);
}

#[test]
fn tri_list_uv_with_texture_vertex_off_the_texture_still_draws() {
    let tex = RgbaTexture::from_bytes(2, 2, &[1, 1, 1, 255, 2, 2, 2, 255, 3, 3, 3, 255, 4, 5, 6, 255]);
    let mut g = RgbaBufferGraphics::new(4, 4, vec![0u8; 64]);
    let verts = [p(1, 1), p(1, 1), p(1, 1)];
    let uvs = [p(1, 0), p(2, 0), p(0, 0)];
    assert_eq!(g.tri_list_uv(&tex, &verts, &uvs), Ok(()));
    let mut expected = vec![0u8; 64];
    expected[20..24].copy_from_slice(&[2, 2, 2, 255]);
    assert_eq!(g.buffer(), &expected);
}

#[test]
fn tri_list_uv_with_a_vertex_outside_draws_nothing() {
    let tex = RgbaTexture::empty(2, 2);
    let mut g = RgbaBufferGraphics::new(4, 4, vec![0u8; 64]);
    let verts = [p(1, 1), p(4, 1), p(1, 1)];
    let uvs = [p(0, 0), p(1, 0), p(0, 0)];
    assert_eq!(g.tri_list_uv(&tex, &verts, &uvs), Err(RasterError::OutOfBounds));
    assert_eq!(g.buffer(), &vec![0u8; 64]);
}
