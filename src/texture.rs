use vstd::prelude::*;

use crate::back_end::{lemma_index_fits, pixel_of, set_pixel, RasterError};

verus! {

/// What a texture holds: its size in pixels and its bytes, four per pixel,
/// row by row.
pub struct TextureView {
    pub width: nat,
    pub height: nat,
    pub bytes: Seq<u8>,
}

/// The texel that `get_pixel(x, y)` returns: transparent black on or past
/// the right or bottom edge (`x >= width`, `y >= height`) or past the end of
/// the bytes, else the four bytes at row-major offset `(y * width + x) * 4`.
pub open spec fn texel(t: TextureView, x: int, y: int) -> Seq<u8> {
    if x >= t.width || y >= t.height || (y * t.width + x) * 4 + 4 > t.bytes.len() {
        seq![0u8, 0u8, 0u8, 0u8]
    } else {
        pixel_of(t.bytes, y * t.width + x)
    }
}

/// A product of two `u32` values fits below `2^64`.
proof fn lemma_u32_product(a: u32, b: u32)
    ensures
        0 <= a * b <= 0xffff_ffff * 0xffff_ffff,
{
    assert(0 <= a * b <= 0xffff_ffff * 0xffff_ffff) by (nonlinear_arith)
        requires
            a <= 0xffff_ffff,
            b <= 0xffff_ffff,
    ;
}

/// Reading on or past the right edge (`x >= width`) or the bottom edge
/// (`y >= height`) gives transparent black, on every row and column.
pub proof fn lemma_texel_past_far_edge(t: TextureView, x: int, y: int)
    requires
        x >= t.width || y >= t.height,
    ensures
        texel(t, x, y) == seq![0u8, 0u8, 0u8, 0u8],
{
}

/// An RGBA image sampled by nearest neighbour.
pub struct RgbaTexture {
    width: u32,
    height: u32,
    buffer: Vec<u8>,
}

impl View for RgbaTexture {
    type V = TextureView;

    closed spec fn view(&self) -> TextureView {
        TextureView { width: self.width as nat, height: self.height as nat, bytes: self.buffer@ }
    }
}

impl RgbaTexture {
    /// The buffer holds exactly four bytes for each pixel.
    pub open spec fn wf(&self) -> bool {
        &&& self@.bytes.len() == self@.width * self@.height * 4
        &&& self@.bytes.len() <= usize::MAX
        &&& self@.width <= u32::MAX
        &&& self@.height <= u32::MAX
    }

    /// A texture of the given size whose bytes are all zero.
    pub fn empty(width: u32, height: u32) -> (r: RgbaTexture)
        requires
            width * height * 4 <= usize::MAX,
        ensures
            r.wf(),
            r@.width == width,
            r@.height == height,
            r@.bytes == Seq::new((width * height * 4) as nat, |i: int| 0u8),
    {
        let size: usize = width as usize * height as usize * 4;
        let mut buffer: Vec<u8> = Vec::with_capacity(size);
        let mut i: usize = 0;
        while i < size
            invariant
                i <= size,
                buffer@ == Seq::new(i as nat, |k: int| 0u8),
            decreases size - i,
        {
            buffer.push(0);
            i = i + 1;
            assert(buffer@ =~= Seq::new(i as nat, |k: int| 0u8));
        }
        RgbaTexture { width, height, buffer }
    }

    /// A texture over a copy of `bytes`, four per pixel, row by row.
    pub fn from_bytes(width: u32, height: u32, bytes: &[u8]) -> (r: RgbaTexture)
        requires
            bytes@.len() == width * height * 4,
        ensures
            r.wf(),
            r@.width == width,
            r@.height == height,
            r@.bytes == bytes@,
    {
        let mut buffer: Vec<u8> = Vec::with_capacity(bytes.len());
        let mut i: usize = 0;
        while i < bytes.len()
            invariant
                i <= bytes@.len(),
                buffer@ == bytes@.subrange(0, i as int),
            decreases bytes@.len() - i,
        {
            buffer.push(bytes[i]);
            i = i + 1;
            assert(buffer@ =~= bytes@.subrange(0, i as int));
        }
        assert(buffer@ =~= bytes@);
        RgbaTexture { width, height, buffer }
    }

    /// A texture over the pixels of a decoded RGBA image, given as its
    /// width, height and raw container: the first `width * height * 4` bytes
    /// are its pixels. `None` when the container is shorter than that.
    pub fn from_piston_image(width: u32, height: u32, raw: Vec<u8>) -> (r: Option<RgbaTexture>)
        ensures
            r is Some <==> raw@.len() >= width * height * 4,
            r is Some ==> {
                let t = r->Some_0;
                &&& t.wf()
                &&& t@.width == width
                &&& t@.height == height
                &&& t@.bytes == raw@.take(width * height * 4)
            },
    {
        let mut buffer = raw;
        let len = buffer.len();
        proof {
            lemma_u32_product(width, height);
        }
        let wide: u128 = width as u128 * height as u128 * 4;
        if wide > len as u128 {
            return None;
        }
        let size: usize = wide as usize;
        buffer.truncate(size);
        Some(RgbaTexture { width, height, buffer })
    }

    pub fn width(&self) -> (r: u32)
        ensures
            r == self@.width,
    {
        self.width
    }

    pub fn height(&self) -> (r: u32)
        ensures
            r == self@.height,
    {
        self.height
    }

    /// The width and height of the texture.
    pub fn get_size(&self) -> (r: (u32, u32))
        ensures
            r.0 == self@.width,
            r.1 == self@.height,
    {
        (self.width, self.height)
    }

    /// The bytes of texel `(x, y)`, or transparent black where `texel` says so.
    pub fn get_pixel(&self, x: u32, y: u32) -> (r: [u8; 4])
        requires
            self.wf(),
        ensures
            r@ == texel(self@, x as int, y as int),
    {
        if x >= self.width || y >= self.height {
            return [0, 0, 0, 0];
        }
        proof {
            lemma_u32_product(y, self.width);
        }
        let offset: u128 = (y as u128 * self.width as u128 + x as u128) * 4;
        if offset + 4 > self.buffer.len() as u128 {
            return [0, 0, 0, 0];
        }
        let b = offset as usize;
        let r = [self.buffer[b], self.buffer[b + 1], self.buffer[b + 2], self.buffer[b + 3]];
        assert(r@ =~= pixel_of(self@.bytes, y * self@.width + x));
        r
    }

    /// Sets texel `(x, y)` to `color`, addressing the bytes row by row;
    /// `OutOfBounds`, with nothing written, outside the texture.
    pub fn put_pixel(&mut self, x: u32, y: u32, color: [u8; 4]) -> (r: Result<(), RasterError>)
        requires
            old(self).wf(),
        ensures
            final(self).wf(),
            final(self)@.width == old(self)@.width,
            final(self)@.height == old(self)@.height,
            r is Ok <==> (x < old(self)@.width && y < old(self)@.height),
            r is Ok ==> final(self)@.bytes == set_pixel(
                old(self)@.bytes,
                y * old(self)@.width + x,
                color@,
            ),
            r is Err ==> r->Err_0 == RasterError::OutOfBounds && final(self)@ == old(self)@,
    {
        if x >= self.width || y >= self.height {
            return Err(RasterError::OutOfBounds);
        }
        proof {
            lemma_index_fits(x as int, y as int, self.width as int, self.height as int);
        }
        let b: usize = (y as usize * self.width as usize + x as usize) * 4;
        self.buffer.set(b, color[0]);
        self.buffer.set(b + 1, color[1]);
        self.buffer.set(b + 2, color[2]);
        self.buffer.set(b + 3, color[3]);
        assert(self@.bytes =~= set_pixel(old(self)@.bytes, y * old(self)@.width + x, color@));
        Ok(())
    }
}

} // verus!
