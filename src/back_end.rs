use vstd::prelude::*;

use crate::primitives::BufferPoint;

verus! {

/// Errors that the bounds-checked operations report.
#[derive(Clone, Copy, Debug, PartialEq, Eq, Structural)]
pub enum RasterError {
    /// A point or a vertex lies outside the buffer it addresses.
    OutOfBounds,
}

/// One channel of `new` laid over `old` with weight `alpha / 255`, rounded down.
pub open spec fn blend_channel(new_c: u8, old_c: u8, alpha: u8) -> u8 {
    ((new_c * alpha + old_c * (255 - alpha)) / 255) as u8
}

/// The four bytes of pixel `i` of a byte buffer.
pub open spec fn pixel_of(buf: Seq<u8>, i: int) -> Seq<u8> {
    seq![buf[4 * i], buf[4 * i + 1], buf[4 * i + 2], buf[4 * i + 3]]
}

/// The bytes of a pixel after `new` is composited onto `old`: unchanged when
/// `new` is fully transparent, a straight copy when `new` is opaque or `old`
/// is fully transparent, else a per-channel blend whose alpha is forced to
/// opaque.
pub open spec fn composite(old: Seq<u8>, new: Seq<u8>) -> Seq<u8> {
    if new[3] == 0 {
        old
    } else if new[3] == 255 || old[3] == 0 {
        new
    } else {
        seq![
            blend_channel(new[0], old[0], new[3]),
            blend_channel(new[1], old[1], new[3]),
            blend_channel(new[2], old[2], new[3]),
            255u8,
        ]
    }
}

/// `buf` with the four bytes of pixel `i` set to `c`.
pub open spec fn set_pixel(buf: Seq<u8>, i: int, c: Seq<u8>) -> Seq<u8> {
    buf.update(4 * i, c[0]).update(4 * i + 1, c[1]).update(4 * i + 2, c[2]).update(4 * i + 3, c[3])
}

/// Whether `i` names a whole pixel of `buf`.
pub open spec fn pixel_in(buf: Seq<u8>, i: int) -> bool {
    0 <= i && 4 * i + 4 <= buf.len()
}

/// The buffer after `color` is written to pixel `i`: an index past the last
/// pixel leaves it as it was.
pub open spec fn write_pixel(buf: Seq<u8>, i: int, color: Seq<u8>) -> Seq<u8> {
    if !pixel_in(buf, i) {
        buf
    } else {
        set_pixel(buf, i, composite(pixel_of(buf, i), color))
    }
}

/// What a surface holds: its size in pixels and its bytes, four per pixel,
/// row by row.
pub struct SurfaceView {
    pub width: nat,
    pub height: nat,
    pub bytes: Seq<u8>,
}

/// A drawing surface over an owned RGBA byte buffer of `width * height * 4`
/// bytes, row-major.
pub struct RgbaBufferGraphics {
    width: usize,
    height: usize,
    buffer: Vec<u8>,
}

impl View for RgbaBufferGraphics {
    type V = SurfaceView;

    closed spec fn view(&self) -> SurfaceView {
        SurfaceView { width: self.width as nat, height: self.height as nat, bytes: self.buffer@ }
    }
}

pub(crate) proof fn lemma_index_fits(x: int, y: int, width: int, height: int)
    requires
        0 <= x < width,
        0 <= y < height,
    ensures
        0 <= x + y * width < width * height,
        0 <= y * width,
{
    assert(y * width + width <= height * width) by (nonlinear_arith)
        requires
            0 <= y < height,
            0 < width,
    ;
    assert(0 <= y * width) by (nonlinear_arith)
        requires
            0 <= y,
            0 < width,
    ;
    assert(width * height == height * width) by (nonlinear_arith);
}

pub(crate) proof fn lemma_pixel_of_set(buf: Seq<u8>, i: int, c: Seq<u8>, j: int)
    requires
        pixel_in(buf, i),
        pixel_in(buf, j),
        c.len() == 4,
    ensures
        pixel_of(set_pixel(buf, i, c), j) == (if i == j { c } else { pixel_of(buf, j) }),
        set_pixel(buf, i, c).len() == buf.len(),
{
    if i == j {
        assert(pixel_of(set_pixel(buf, i, c), j) =~= c);
    } else {
        assert(pixel_of(set_pixel(buf, i, c), j) =~= pixel_of(buf, j));
    }
}

/// Writing a pixel's own bytes back changes nothing.
proof fn lemma_set_pixel_same(buf: Seq<u8>, i: int)
    requires
        pixel_in(buf, i),
    ensures
        set_pixel(buf, i, pixel_of(buf, i)) == buf,
{
    assert(set_pixel(buf, i, pixel_of(buf, i)) =~= buf);
}

/// `new_c * alpha / 255 + old_c * (1 - alpha / 255)`, rounded down.
fn blend_byte(new_c: u8, old_c: u8, alpha: u8) -> (r: u8)
    ensures
        r == blend_channel(new_c, old_c, alpha),
{
    let a: u32 = alpha as u32;
    let rest: u32 = 255 - a;
    proof {
        assert(new_c as u32 * a <= 255 * a) by (nonlinear_arith)
            requires
                new_c <= 255,
        ;
        assert(old_c as u32 * rest <= 255 * rest) by (nonlinear_arith)
            requires
                old_c <= 255,
        ;
    }
    let sum: u32 = new_c as u32 * a + old_c as u32 * rest;
    (sum / 255) as u8
}

impl RgbaBufferGraphics {
    /// The buffer holds exactly four bytes for each pixel.
    pub open spec fn wf(&self) -> bool {
        &&& self@.bytes.len() == self@.width * self@.height * 4
        &&& self@.bytes.len() <= usize::MAX
    }

    /// The number of pixels of the surface.
    pub open spec fn pixel_count(&self) -> nat {
        self@.width * self@.height
    }

    pub fn new(width: usize, height: usize, buffer: Vec<u8>) -> (r: RgbaBufferGraphics)
        requires
            buffer@.len() == width * height * 4,
        ensures
            r@.width == width,
            r@.height == height,
            r@.bytes == buffer@,
            r.wf(),
    {
        // The length of a `Vec` fits in `usize`; reading it records that.
        let len = buffer.len();
        RgbaBufferGraphics { width, height, buffer }
    }

    pub fn width(&self) -> (r: usize)
        ensures
            r == self@.width,
    {
        self.width
    }

    pub fn height(&self) -> (r: usize)
        ensures
            r == self@.height,
    {
        self.height
    }

    /// The bytes of the surface.
    pub fn buffer(&self) -> (r: &Vec<u8>)
        ensures
            r@ == self@.bytes,
    {
        &self.buffer
    }

    /// Gives the byte buffer back.
    pub fn into_buffer(self) -> (r: Vec<u8>)
        ensures
            r@ == self@.bytes,
    {
        self.buffer
    }

    /// The index of pixel `p` in row-major order, or `OutOfBounds` when `p`
    /// lies outside the surface.
    pub fn coords_to_pixel_index(&self, p: &BufferPoint) -> (r: Result<usize, RasterError>)
        requires
            self.wf(),
        ensures
            r is Ok <==> (p.x < self@.width && p.y < self@.height),
            r is Ok ==> r->Ok_0 == p.x + p.y * self@.width,
            r is Err ==> r->Err_0 == RasterError::OutOfBounds,
    {
        if p.x < self.width && p.y < self.height {
            proof {
                lemma_index_fits(p.x as int, p.y as int, self.width as int, self.height as int);
            }
            Ok(p.x + p.y * self.width)
        } else {
            Err(RasterError::OutOfBounds)
        }
    }

    /// Composites `color` onto pixel `pixel_index`; an index past the last
    /// pixel is ignored.
    pub fn write_color_bytes(&mut self, pixel_index: usize, color: [u8; 4])
        requires
            old(self).wf(),
        ensures
            final(self).wf(),
            final(self)@.width == old(self)@.width,
            final(self)@.height == old(self)@.height,
            final(self)@.bytes == write_pixel(old(self)@.bytes, pixel_index as int, color@),
            color[3] == 0 ==> final(self)@.bytes == old(self)@.bytes,
            color[3] == 255 && pixel_index < old(self).pixel_count() ==> pixel_of(
                final(self)@.bytes,
                pixel_index as int,
            ) == color@,
    {
        let len = self.buffer.len();
        if pixel_index >= len / 4 {
            return ;
        }
        let b = pixel_index * 4;
        let old_px: [u8; 4] = [self.buffer[b], self.buffer[b + 1], self.buffer[b + 2], self.buffer[b + 3]];
        assert(old_px@ =~= pixel_of(self@.bytes, pixel_index as int));
        let out: [u8; 4] = if color[3] == 0 {
            old_px
        } else if color[3] == 255 || old_px[3] == 0 {
            color
        } else {
            [
                blend_byte(color[0], old_px[0], color[3]),
                blend_byte(color[1], old_px[1], color[3]),
                blend_byte(color[2], old_px[2], color[3]),
                255,
            ]
        };
        assert(out@ =~= composite(old_px@, color@));
        self.buffer.set(b, out[0]);
        self.buffer.set(b + 1, out[1]);
        self.buffer.set(b + 2, out[2]);
        self.buffer.set(b + 3, out[3]);
        proof {
            let ob = old(self)@.bytes;
            let i = pixel_index as int;
            assert(self@.bytes =~= set_pixel(ob, i, out@));
            lemma_pixel_of_set(ob, i, out@, i);
            if color[3] == 0 {
                lemma_set_pixel_same(ob, i);
            }
        }
    }

    /// Composites `color` onto every pixel, as `write_color_bytes` does.
    pub fn clear_color(&mut self, color: [u8; 4])
        requires
            old(self).wf(),
        ensures
            final(self).wf(),
            final(self)@.width == old(self)@.width,
            final(self)@.height == old(self)@.height,
            forall|i: int|
                0 <= i < old(self).pixel_count() ==> #[trigger] pixel_of(final(self)@.bytes, i)
                    == composite(pixel_of(old(self)@.bytes, i), color@),
            color[3] == 255 ==> forall|i: int|
                0 <= i < old(self).pixel_count() ==> #[trigger] pixel_of(final(self)@.bytes, i)
                    == color@,
    {
        let count = self.buffer.len() / 4;
        let mut i: usize = 0;
        while i < count
            invariant
                self.wf(),
                self@.width == old(self)@.width,
                self@.height == old(self)@.height,
                count == self.pixel_count(),
                i <= count,
                forall|j: int|
                    0 <= j < i ==> #[trigger] pixel_of(self@.bytes, j) == composite(
                        pixel_of(old(self)@.bytes, j),
                        color@,
                    ),
                forall|j: int|
                    i <= j < count ==> #[trigger] pixel_of(self@.bytes, j) == pixel_of(
                        old(self)@.bytes,
                        j,
                    ),
            decreases count - i,
        {
            let ghost before = self@.bytes;
            self.write_color_bytes(i, color);
            proof {
                let c = composite(pixel_of(before, i as int), color@);
                assert forall|j: int| 0 <= j < count implies #[trigger] pixel_of(self@.bytes, j)
                    == (if j == i { c } else { pixel_of(before, j) }) by {
                    lemma_pixel_of_set(before, i as int, c, j);
                }
            }
            i = i + 1;
        }
    }
}

} // verus!
