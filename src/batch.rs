//! Drawing batches of triangles given as flat vertex lists.

use vstd::prelude::*;

use vstd::arithmetic::div_mod::lemma_fundamental_div_mod;

use crate::back_end::{RasterError, RgbaBufferGraphics};
use crate::mapping::{PixelSource, TextureMapping};
use crate::primitives::{
    mapping_of, sort3, textured_triangle_paint, BufferPoint, TextureTriangle, Triangle,
};
use crate::scan::{inside, lemma_paint_spans_append, paint_spans, triangle_spans, Span};
use crate::texture::RgbaTexture;

verus! {

/// The spans of triangle `k` of a batch: the vertices at `3k`, `3k + 1`,
/// `3k + 2`, sorted.
pub open spec fn batch_triangle_spans(verts: Seq<BufferPoint>, k: int) -> Seq<Span> {
    let (a, b, c) = sort3(verts[3 * k], verts[3 * k + 1], verts[3 * k + 2]);
    triangle_spans(a, b, c)
}

/// The spans of the first `n` triangles of a batch, in drawing order.
pub open spec fn batch_spans(verts: Seq<BufferPoint>, n: int) -> Seq<Span>
    decreases n,
{
    if n <= 0 {
        Seq::empty()
    } else {
        batch_spans(verts, n - 1) + batch_triangle_spans(verts, n - 1)
    }
}

impl RgbaBufferGraphics {
    /// Draws a batch of triangles with `color`: each three consecutive
    /// vertices make one triangle, and vertices left over after the last
    /// whole triangle are ignored. `OutOfBounds`, with nothing drawn, when
    /// one of the triangles' vertices lies outside the surface.
    pub fn tri_list(&mut self, color: [u8; 4], vertices: &[BufferPoint]) -> (r: Result<
        (),
        RasterError,
    >)
        requires
            old(self).wf(),
        ensures
            final(self).wf(),
            final(self)@.width == old(self)@.width,
            final(self)@.height == old(self)@.height,
            r is Ok <==> forall|i: int|
                0 <= i < vertices@.len() / 3 * 3 ==> inside(
                    #[trigger] vertices@[i],
                    old(self)@.width as int,
                    old(self)@.height as int,
                ),
            r is Ok ==> final(self)@.bytes == paint_spans(
                old(self)@.bytes,
                old(self)@.width as int,
                batch_spans(vertices@, (vertices@.len() / 3) as int),
                PixelSource::Solid(color),
            ),
            r is Err ==> r->Err_0 == RasterError::OutOfBounds && final(self)@ == old(self)@,
    {
        let len = vertices.len();
        let count = len / 3;
        proof {
            lemma_fundamental_div_mod(vertices@.len() as int, 3);
        }
        let width = self.width();
        let height = self.height();
        let mut i: usize = 0;
        while i < count * 3
            invariant
                count == vertices@.len() / 3,
                count * 3 <= vertices@.len(),
                len == vertices@.len(),
                self.wf(),
                self@ == old(self)@,
                width == self@.width,
                height == self@.height,
                i <= count * 3,
                forall|j: int| 0 <= j < i ==> inside(#[trigger] vertices@[j], width as int, height as int),
            decreases count * 3 - i,
        {
            if !(vertices[i].x < width && vertices[i].y < height) {
                return Err(RasterError::OutOfBounds);
            }
            i = i + 1;
        }
        let ghost start = self@.bytes;
        let mut t: usize = 0;
        while t < count
            invariant
                self.wf(),
                count == vertices@.len() / 3,
                count * 3 <= vertices@.len(),
                len == vertices@.len(),
                width == self@.width,
                height == self@.height,
                t <= count,
                forall|j: int| 0 <= j < count * 3 ==> inside(#[trigger] vertices@[j], width as int, height as int),
                self@.bytes == paint_spans(start, width as int, batch_spans(vertices@, t as int), PixelSource::Solid(color)),
            decreases count - t,
        {
            let tri = Triangle::new(vertices[3 * t], vertices[3 * t + 1], vertices[3 * t + 2]);
            proof {
                assert(inside(vertices@[3 * t], width as int, height as int));
                assert(inside(vertices@[3 * t + 1], width as int, height as int));
                assert(inside(vertices@[3 * t + 2], width as int, height as int));
                lemma_paint_spans_append(
                    start,
                    width as int,
                    batch_spans(vertices@, t as int),
                    batch_triangle_spans(vertices@, t as int),
                    PixelSource::Solid(color),
                );
            }
            match tri.render(self, color) {
                Ok(()) => {},
                Err(e) => {
                    return Err(e);
                },
            }
            t = t + 1;
        }
        Ok(())
    }
}

/// The mapping of textured triangle `k` of a batch: the vertex and texture
/// vertex pairs at `3k`, `3k + 1`, `3k + 2`.
pub open spec fn batch_mapping<'a>(
    verts: Seq<BufferPoint>,
    uvs: Seq<BufferPoint>,
    texture: &'a RgbaTexture,
    k: int,
) -> TextureMapping<'a> {
    mapping_of(
        (verts[3 * k], uvs[3 * k]),
        (verts[3 * k + 1], uvs[3 * k + 1]),
        (verts[3 * k + 2], uvs[3 * k + 2]),
        texture,
    )
}

/// The buffer after the first `n` textured triangles of a batch are painted
/// in turn.
pub open spec fn textured_batch_paint(
    buf: Seq<u8>,
    width: int,
    verts: Seq<BufferPoint>,
    uvs: Seq<BufferPoint>,
    texture: &RgbaTexture,
    n: int,
) -> Seq<u8>
    decreases n,
{
    if n <= 0 {
        buf
    } else {
        textured_triangle_paint(
            textured_batch_paint(buf, width, verts, uvs, texture, n - 1),
            width,
            batch_mapping(verts, uvs, texture, n - 1),
        )
    }
}

impl RgbaBufferGraphics {
    /// Draws a batch of textured triangles: each three consecutive vertices
    /// make one triangle, paired one by one with the texture vertices at the
    /// same places, and vertices left over after the last whole triangle are
    /// ignored. `OutOfBounds`, with nothing drawn, when one of the triangles'
    /// vertices lies outside the surface.
    pub fn tri_list_uv(
        &mut self,
        texture: &RgbaTexture,
        vertices: &[BufferPoint],
        uvs: &[BufferPoint],
    ) -> (r: Result<(), RasterError>)
        requires
            old(self).wf(),
            texture.wf(),
            uvs@.len() == vertices@.len(),
        ensures
            final(self).wf(),
            final(self)@.width == old(self)@.width,
            final(self)@.height == old(self)@.height,
            r is Ok <==> forall|i: int|
                0 <= i < vertices@.len() / 3 * 3 ==> inside(
                    #[trigger] vertices@[i],
                    old(self)@.width as int,
                    old(self)@.height as int,
                ),
            r is Ok ==> final(self)@.bytes == textured_batch_paint(
                old(self)@.bytes,
                old(self)@.width as int,
                vertices@,
                uvs@,
                texture,
                (vertices@.len() / 3) as int,
            ),
            r is Err ==> r->Err_0 == RasterError::OutOfBounds && final(self)@ == old(self)@,
    {
        let len = vertices.len();
        let count = len / 3;
        proof {
            lemma_fundamental_div_mod(vertices@.len() as int, 3);
        }
        let width = self.width();
        let height = self.height();
        let mut i: usize = 0;
        while i < count * 3
            invariant
                count == vertices@.len() / 3,
                count * 3 <= vertices@.len(),
                len == vertices@.len(),
                uvs@.len() == vertices@.len(),
                self.wf(),
                self@ == old(self)@,
                width == self@.width,
                height == self@.height,
                i <= count * 3,
                forall|j: int| 0 <= j < i ==> inside(#[trigger] vertices@[j], width as int, height as int),
            decreases count * 3 - i,
        {
            let v = vertices[i];
            if !(v.x < width && v.y < height) {
                return Err(RasterError::OutOfBounds);
            }
            i = i + 1;
        }
        let mut t: usize = 0;
        while t < count
            invariant
                self.wf(),
                texture.wf(),
                count == vertices@.len() / 3,
                count * 3 <= vertices@.len(),
                len == vertices@.len(),
                uvs@.len() == vertices@.len(),
                width == self@.width,
                height == self@.height,
                width == old(self)@.width,
                t <= count,
                forall|j: int| 0 <= j < count * 3 ==> inside(#[trigger] vertices@[j], width as int, height as int),
                self@.bytes == textured_batch_paint(
                    old(self)@.bytes,
                    width as int,
                    vertices@,
                    uvs@,
                    texture,
                    t as int,
                ),
            decreases count - t,
        {
            let k = 3 * t;
            let tri = TextureTriangle::new(
                (vertices[k], uvs[k]),
                (vertices[k + 1], uvs[k + 1]),
                (vertices[k + 2], uvs[k + 2]),
                texture,
            );
            proof {
                assert(inside(vertices@[k as int], width as int, height as int));
                assert(inside(vertices@[k + 1], width as int, height as int));
                assert(inside(vertices@[k + 2], width as int, height as int));
            }
            match tri.render(self) {
                Ok(()) => {},
                Err(e) => {
                    return Err(e);
                },
            }
            t = t + 1;
        }
        Ok(())
    }
}

} // verus!
