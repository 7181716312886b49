//! Pixel points and the triangles drawn from them.

use vstd::prelude::*;

use crate::back_end::{lemma_index_fits, pixel_of, write_pixel, RasterError, RgbaBufferGraphics};
use crate::mapping::{PixelSource, TextureMapping};
use crate::scan::{
    all_inside, in_bounding_box, inside, lemma_distinct_pixels, lemma_write_elsewhere, paint_spans,
    render_triangle, same_outside_box, triangle_spans,
};
use crate::texture::{texel, RgbaTexture, TextureView};

verus! {

/// A point in pixel space: `x` counts columns from the left, `y` rows from the top.
#[derive(Clone, Copy, Debug, PartialEq, Eq, Structural)]
pub struct BufferPoint {
    pub x: usize,
    pub y: usize,
}

impl BufferPoint {
    pub fn new(x: usize, y: usize) -> (r: BufferPoint)
        ensures
            r.x == x,
            r.y == y,
    {
        BufferPoint { x, y }
    }
}

/// Whether `a` comes no later than `b`: by row, then by column.
pub open spec fn point_le(a: BufferPoint, b: BufferPoint) -> bool {
    a.y < b.y || (a.y == b.y && a.x <= b.x)
}

/// Whether `a`, `b`, `c` are in ascending order: by row, then by column.
pub open spec fn sorted3(a: BufferPoint, b: BufferPoint, c: BufferPoint) -> bool {
    point_le(a, b) && point_le(b, c)
}

/// Whether `(p, q, r)` is an arrangement of `a`, `b`, `c`.
pub open spec fn arrangement_of<T>(p: T, q: T, r: T, a: T, b: T, c: T) -> bool {
    ||| (p, q, r) == (a, b, c)
    ||| (p, q, r) == (a, c, b)
    ||| (p, q, r) == (b, a, c)
    ||| (p, q, r) == (b, c, a)
    ||| (p, q, r) == (c, a, b)
    ||| (p, q, r) == (c, b, a)
}

/// `a`, `b`, `c` put in ascending order by three compare-and-swap steps:
/// the first two, then the larger of those with the third, then the first
/// two again.
pub open spec fn sort3(a: BufferPoint, b: BufferPoint, c: BufferPoint) -> (
    BufferPoint,
    BufferPoint,
    BufferPoint,
) {
    let (a1, b1) = if point_le(a, b) { (a, b) } else { (b, a) };
    let (b2, c2) = if point_le(b1, c) { (b1, c) } else { (c, b1) };
    let (a3, b3) = if point_le(a1, b2) { (a1, b2) } else { (b2, a1) };
    (a3, b3, c2)
}

/// The pairs `p`, `q`, `r` put in ascending order of their first points, by
/// the same steps as `sort3`; each pair stays together.
pub open spec fn sort_pairs3(p: (BufferPoint, BufferPoint), q: (BufferPoint, BufferPoint), r: (
    BufferPoint,
    BufferPoint,
)) -> ((BufferPoint, BufferPoint), (BufferPoint, BufferPoint), (BufferPoint, BufferPoint)) {
    let (a1, b1) = if point_le(p.0, q.0) { (p, q) } else { (q, p) };
    let (b2, c2) = if point_le(b1.0, r.0) { (b1, r) } else { (r, b1) };
    let (a3, b3) = if point_le(a1.0, b2.0) { (a1, b2) } else { (b2, a1) };
    (a3, b3, c2)
}

/// The mapping of a textured triangle built from pairs `p`, `q`, `r` of
/// (pixel vertex, texture vertex) over `texture`.
pub open spec fn mapping_of<'a>(
    p: (BufferPoint, BufferPoint),
    q: (BufferPoint, BufferPoint),
    r: (BufferPoint, BufferPoint),
    texture: &'a RgbaTexture,
) -> TextureMapping<'a> {
    let (a, b, c) = sort_pairs3(p, q, r);
    TextureMapping { vertices: (a.0, b.0, c.0), texture_vertices: (a.1, b.1, c.1), texture }
}

/// `sort3` puts its arguments in ascending order and keeps each of them.
pub proof fn lemma_sort3(a: BufferPoint, b: BufferPoint, c: BufferPoint)
    ensures
        sorted3(sort3(a, b, c).0, sort3(a, b, c).1, sort3(a, b, c).2),
        arrangement_of(sort3(a, b, c).0, sort3(a, b, c).1, sort3(a, b, c).2, a, b, c),
{
}

fn point_before(a: &BufferPoint, b: &BufferPoint) -> (r: bool)
    ensures
        r == point_le(*a, *b),
{
    a.y < b.y || (a.y == b.y && a.x <= b.x)
}

/// A triangle in pixel space, its vertices in ascending order by row, then
/// by column.
pub struct Triangle {
    vertices: [BufferPoint; 3],
}

impl Triangle {
    #[verifier::type_invariant]
    spec fn sorted(&self) -> bool {
        sorted3(self.vertices[0], self.vertices[1], self.vertices[2])
    }

    /// The vertices, in their sorted order.
    pub closed spec fn spec_vertices(&self) -> (BufferPoint, BufferPoint, BufferPoint) {
        (self.vertices[0], self.vertices[1], self.vertices[2])
    }

    /// The triangle over `v1`, `v2`, `v3`, sorted by row, then by column.
    pub fn new(v1: BufferPoint, v2: BufferPoint, v3: BufferPoint) -> (r: Triangle)
        ensures
            r.spec_vertices() == sort3(v1, v2, v3),
            sorted3(r.spec_vertices().0, r.spec_vertices().1, r.spec_vertices().2),
            arrangement_of(r.spec_vertices().0, r.spec_vertices().1, r.spec_vertices().2, v1, v2, v3),
    {
        let (a, b) = if point_before(&v1, &v2) { (v1, v2) } else { (v2, v1) };
        let (b, c) = if point_before(&b, &v3) { (b, v3) } else { (v3, b) };
        let (a, b) = if point_before(&a, &b) { (a, b) } else { (b, a) };
        Triangle { vertices: [a, b, c] }
    }

    /// Fills the triangle with `color`, painting `triangle_spans` of its
    /// vertices; `OutOfBounds`, with nothing drawn, when a vertex lies
    /// outside the surface.
    pub fn render(&self, graphics: &mut RgbaBufferGraphics, color: [u8; 4]) -> (r: Result<
        (),
        RasterError,
    >)
        requires
            old(graphics).wf(),
        ensures
            final(graphics).wf(),
            final(graphics)@.width == old(graphics)@.width,
            final(graphics)@.height == old(graphics)@.height,
            ({
                let (a, b, c) = self.spec_vertices();
                let (w, h) = (old(graphics)@.width as int, old(graphics)@.height as int);
                &&& r is Ok <==> (inside(a, w, h) && inside(b, w, h) && inside(c, w, h))
                &&& r is Ok ==> same_outside_box(
                    old(graphics)@.bytes,
                    final(graphics)@.bytes,
                    w,
                    h,
                    a,
                    b,
                    c,
                )
                &&& r is Ok ==> final(graphics)@.bytes == paint_spans(
                    old(graphics)@.bytes,
                    w,
                    triangle_spans(a, b, c),
                    PixelSource::Solid(color),
                )
                &&& r is Err ==> r->Err_0 == RasterError::OutOfBounds && final(graphics)@
                    == old(graphics)@
            }),
    {
        proof {
            use_type_invariant(self);
        }
        let a = self.vertices[0];
        let b = self.vertices[1];
        let c = self.vertices[2];
        if !all_inside(graphics, &a, &b, &c) {
            return Err(RasterError::OutOfBounds);
        }
        render_triangle(graphics, a, b, c, &PixelSource::Solid(color));
        Ok(())
    }

    /// The vertices, in their sorted order.
    pub fn vertices(&self) -> (r: [BufferPoint; 3])
        ensures
            (r[0], r[1], r[2]) == self.spec_vertices(),
    {
        self.vertices
    }
}

/// The buffer after a textured triangle is painted: a triangle whose three
/// pixel vertices coincide is that one pixel, written with the texel at its
/// first texture vertex; any other has `triangle_spans` of its pixel
/// vertices painted, each pixel with its `texture_sample`.
pub open spec fn textured_triangle_paint(buf: Seq<u8>, width: int, m: TextureMapping) -> Seq<u8> {
    let (a, b, c) = m.vertices;
    if a == b && b == c {
        write_pixel(
            buf,
            a.x + a.y * width,
            texel(m.texture@, m.texture_vertices.0.x as int, m.texture_vertices.0.y as int),
        )
    } else {
        paint_spans(buf, width, triangle_spans(a, b, c), PixelSource::Mapped(m))
    }
}

/// A triangle in pixel space paired, vertex by vertex, with a triangle of
/// texture points, and the texture it is painted from. The pairs are in
/// ascending order of their pixel vertices: by row, then by column.
pub struct TextureTriangle<'tri> {
    vertices: [BufferPoint; 3],
    texture_vertices: [BufferPoint; 3],
    texture: &'tri RgbaTexture,
}

impl<'tri> TextureTriangle<'tri> {
    #[verifier::type_invariant]
    spec fn well_formed(&self) -> bool {
        &&& sorted3(self.vertices[0], self.vertices[1], self.vertices[2])
        &&& self.texture.wf()
    }

    /// How the triangle maps its pixels to texels.
    pub closed spec fn spec_mapping(&self) -> TextureMapping<'tri> {
        TextureMapping {
            vertices: (self.vertices[0], self.vertices[1], self.vertices[2]),
            texture_vertices: (self.texture_vertices[0], self.texture_vertices[1], self.texture_vertices[2]),
            texture: self.texture,
        }
    }

    /// The pixel vertices, in their sorted order.
    pub open spec fn spec_vertices(&self) -> (BufferPoint, BufferPoint, BufferPoint) {
        self.spec_mapping().vertices
    }

    /// The texture vertices, each paired with the pixel vertex at its place.
    pub open spec fn spec_texture_vertices(&self) -> (BufferPoint, BufferPoint, BufferPoint) {
        self.spec_mapping().texture_vertices
    }

    /// The texture the triangle is painted from.
    pub open spec fn spec_texture(&self) -> TextureView {
        self.spec_mapping().texture@
    }

    /// The triangle over the pairs `(pixel vertex, texture vertex)` `v1`,
    /// `v2`, `v3`, sorted by pixel vertex: by row, then by column. Each pair
    /// stays together.
    pub fn new(
        v1: (BufferPoint, BufferPoint),
        v2: (BufferPoint, BufferPoint),
        v3: (BufferPoint, BufferPoint),
        texture: &'tri RgbaTexture,
    ) -> (r: TextureTriangle<'tri>)
        requires
            texture.wf(),
        ensures
            sorted3(r.spec_vertices().0, r.spec_vertices().1, r.spec_vertices().2),
            arrangement_of(
                (r.spec_vertices().0, r.spec_texture_vertices().0),
                (r.spec_vertices().1, r.spec_texture_vertices().1),
                (r.spec_vertices().2, r.spec_texture_vertices().2),
                v1,
                v2,
                v3,
            ),
            r.spec_texture() == texture@,
            r.spec_mapping() == mapping_of(v1, v2, v3, texture),
    {
        let (a, b) = if point_before(&v1.0, &v2.0) { (v1, v2) } else { (v2, v1) };
        let (b, c) = if point_before(&b.0, &v3.0) { (b, v3) } else { (v3, b) };
        let (a, b) = if point_before(&a.0, &b.0) { (a, b) } else { (b, a) };
        TextureTriangle { vertices: [a.0, b.0, c.0], texture_vertices: [a.1, b.1, c.1], texture }
    }

    /// The pixel vertices, in their sorted order.
    pub fn vertices(&self) -> (r: [BufferPoint; 3])
        ensures
            (r[0], r[1], r[2]) == self.spec_vertices(),
    {
        self.vertices
    }

    /// The texture vertices, each paired with the pixel vertex at its place.
    pub fn texture_vertices(&self) -> (r: [BufferPoint; 3])
        ensures
            (r[0], r[1], r[2]) == self.spec_texture_vertices(),
    {
        self.texture_vertices
    }

    /// How the triangle maps its pixels to texels.
    pub fn mapping(&self) -> (r: TextureMapping<'tri>)
        ensures
            r == self.spec_mapping(),
            r.texture.wf(),
    {
        proof {
            use_type_invariant(self);
        }
        TextureMapping {
            vertices: (self.vertices[0], self.vertices[1], self.vertices[2]),
            texture_vertices: (self.texture_vertices[0], self.texture_vertices[1], self.texture_vertices[2]),
            texture: self.texture,
        }
    }

    /// The texture the triangle is painted from.
    pub fn texture(&self) -> (r: &RgbaTexture)
        ensures
            r@ == self.spec_texture(),
            r.wf(),
    {
        proof {
            use_type_invariant(self);
        }
        self.texture
    }

    /// Paints the triangle from its texture; `OutOfBounds`, with nothing
    /// drawn, when a pixel vertex lies outside the surface. A triangle whose
    /// three pixel vertices coincide is that one pixel, colored with the
    /// texel at its first texture vertex; any other is filled by painting
    /// `triangle_spans` of its pixel vertices, each pixel with its
    /// `texture_sample`. Texture points off the texture sample as
    /// transparent black, which leaves their pixels as they were.
    pub fn render(&self, graphics: &mut RgbaBufferGraphics) -> (r: Result<(), RasterError>)
        requires
            old(graphics).wf(),
        ensures
            final(graphics).wf(),
            final(graphics)@.width == old(graphics)@.width,
            final(graphics)@.height == old(graphics)@.height,
            ({
                let (a, b, c) = self.spec_vertices();
                let (w, h) = (old(graphics)@.width as int, old(graphics)@.height as int);
                &&& r is Ok <==> (inside(a, w, h) && inside(b, w, h) && inside(c, w, h))
                &&& r is Ok ==> same_outside_box(
                    old(graphics)@.bytes,
                    final(graphics)@.bytes,
                    w,
                    h,
                    a,
                    b,
                    c,
                )
                &&& r is Ok ==> final(graphics)@.bytes == textured_triangle_paint(
                    old(graphics)@.bytes,
                    w,
                    self.spec_mapping(),
                )
                &&& r is Ok && a == b && b == c ==> final(graphics)@.bytes == write_pixel(
                    old(graphics)@.bytes,
                    a.x + a.y * w,
                    texel(
                        self.spec_texture(),
                        self.spec_texture_vertices().0.x as int,
                        self.spec_texture_vertices().0.y as int,
                    ),
                )
                &&& r is Ok && !(a == b && b == c) ==> final(graphics)@.bytes == paint_spans(
                    old(graphics)@.bytes,
                    w,
                    triangle_spans(a, b, c),
                    PixelSource::Mapped(self.spec_mapping()),
                )
                &&& r is Err ==> r->Err_0 == RasterError::OutOfBounds && final(graphics)@
                    == old(graphics)@
            }),
    {
        proof {
            use_type_invariant(self);
        }
        let a = self.vertices[0];
        let b = self.vertices[1];
        let c = self.vertices[2];
        if !all_inside(graphics, &a, &b, &c) {
            return Err(RasterError::OutOfBounds);
        }
        if a == b && b == c {
            let t0 = self.texture_vertices[0];
            let color = if t0.x > 0xffff_ffff || t0.y > 0xffff_ffff {
                [0, 0, 0, 0]
            } else {
                self.texture.get_pixel(t0.x as u32, t0.y as u32)
            };
            let ghost before = graphics@.bytes;
            match graphics.coords_to_pixel_index(&a) {
                Ok(idx) => graphics.write_color_bytes(idx, color),
                Err(_) => {},
            }
            proof {
                let (w, h) = (graphics@.width as int, graphics@.height as int);
                assert forall|x: int, y: int|
                    0 <= x < w && 0 <= y < h && !#[trigger] in_bounding_box(a, b, c, x, y)
                        implies pixel_of(graphics@.bytes, x + y * w) == pixel_of(
                        before,
                        x + y * w,
                    ) by {
                    lemma_index_fits(x, y, w, h);
                    assert(4 * (x + y * w) + 4 <= before.len()) by (nonlinear_arith)
                        requires
                            x + y * w < w * h,
                            before.len() == w * h * 4,
                    ;
                    lemma_distinct_pixels(x, y, a.x as int, a.y as int, w);
                    lemma_write_elsewhere(before, a.x + a.y * w, color@, x + y * w);
                }
            }
            return Ok(());
        }
        render_triangle(graphics, a, b, c, &PixelSource::Mapped(self.mapping()));
        Ok(())
    }
}

} // verus!
