//! Where drawn pixels take their colors from: one flat color, or a texture
//! mapped onto a triangle.

use vstd::prelude::*;

use crate::primitives::BufferPoint;
use crate::scan::{coord_limit, inside, lemma_div_between};
use crate::texture::{texel, RgbaTexture, TextureView};

verus! {

/// Where the color of each drawn pixel comes from.
pub enum PixelSource<'a> {
    /// One color for every pixel.
    Solid([u8; 4]),
    /// The texel that a textured triangle maps the pixel to.
    Mapped(TextureMapping<'a>),
}

/// How a textured triangle maps pixels to texels: its sorted pixel
/// vertices, the texture vertex paired with each, and the texture.
#[derive(Clone, Copy)]
pub struct TextureMapping<'a> {
    pub vertices: (BufferPoint, BufferPoint, BufferPoint),
    pub texture_vertices: (BufferPoint, BufferPoint, BufferPoint),
    pub texture: &'a RgbaTexture,
}

pub open spec fn abs_int(a: int) -> int {
    if a < 0 { -a } else { a }
}

/// `n / d` rounded up, for `d > 0`.
pub open spec fn ceil_div(n: int, d: int) -> int {
    if n >= 0 { (n + d - 1) / d } else { -((-n) / d) }
}

/// The projection of `(dx, dy)` onto `(vx, vy)`, in units of `(vx, vy)`,
/// rounded up; zero when `(vx, vy)` is the zero vector.
pub open spec fn coefficient(vx: int, vy: int, dx: int, dy: int) -> int {
    let len2 = vx * vx + vy * vy;
    if len2 == 0 {
        0
    } else {
        ceil_div(vx * dx + vy * dy, len2)
    }
}

/// The texture point that pixel `(x, y)` maps to. With the third vertex as
/// origin, the pixel is projected onto each of the two framebuffer edges
/// `v0 - v2` and `v1 - v2` on its own; the two coefficients, rounded up,
/// scale the texture edges `t0 - t2` and `t1 - t2`, added to `t2`.
pub open spec fn mapped_point(
    fb: (BufferPoint, BufferPoint, BufferPoint),
    tex: (BufferPoint, BufferPoint, BufferPoint),
    x: int,
    y: int,
) -> (int, int) {
    let (v0, v1, v2) = fb;
    let (t0, t1, t2) = tex;
    let dx = x - v2.x;
    let dy = y - v2.y;
    let ca = coefficient(v0.x - v2.x, v0.y - v2.y, dx, dy);
    let cb = coefficient(v1.x - v2.x, v1.y - v2.y, dx, dy);
    (
        ca * (t0.x - t2.x) + cb * (t1.x - t2.x) + t2.x,
        ca * (t0.y - t2.y) + cb * (t1.y - t2.y) + t2.y,
    )
}

/// The color that a textured triangle gives pixel `(x, y)`: the texel at
/// the mapped point, transparent black where that point has a negative
/// coordinate.
pub open spec fn texture_sample(
    fb: (BufferPoint, BufferPoint, BufferPoint),
    tex: (BufferPoint, BufferPoint, BufferPoint),
    texture: TextureView,
    x: int,
    y: int,
) -> Seq<u8> {
    let (tx, ty) = mapped_point(fb, tex, x, y);
    if tx < 0 || ty < 0 {
        seq![0u8, 0u8, 0u8, 0u8]
    } else {
        texel(texture, tx, ty)
    }
}

/// The color that `src` gives pixel `(x, y)`.
pub open spec fn color_of(src: PixelSource, x: int, y: int) -> Seq<u8> {
    match src {
        PixelSource::Solid(c) => c@,
        PixelSource::Mapped(m) => texture_sample(m.vertices, m.texture_vertices, m.texture@, x, y),
    }
}

/// Whether `src` can color the pixels of a surface of the given size: a
/// textured triangle lies in the surface.
pub open spec fn source_ready(src: PixelSource, width: int, height: int) -> bool {
    match src {
        PixelSource::Solid(_) => true,
        PixelSource::Mapped(m) => {
            let (v0, v1, v2) = m.vertices;
            &&& m.texture.wf()
            &&& inside(v0, width, height)
            &&& inside(v1, width, height)
            &&& inside(v2, width, height)
        },
    }
}

/// Every color that a source gives has four bytes.
pub proof fn lemma_color_len(src: PixelSource, x: int, y: int)
    ensures
        color_of(src, x, y).len() == 4,
{
}

/// A projection coefficient is at most `|dx| + |dy|` in size.
proof fn lemma_coefficient_bound(vx: int, vy: int, dx: int, dy: int)
    ensures
        abs_int(coefficient(vx, vy, dx, dy)) <= abs_int(dx) + abs_int(dy),
{
    let len2 = vx * vx + vy * vy;
    if len2 != 0 {
        let n = vx * dx + vy * dy;
        let m = abs_int(dx) + abs_int(dy);
        let (avx, avy, adx, ady) = (abs_int(vx), abs_int(vy), abs_int(dx), abs_int(dy));
        assert(avx <= vx * vx && avy <= vy * vy) by (nonlinear_arith)
            requires
                avx == abs_int(vx),
                avy == abs_int(vy),
        ;
        assert(abs_int(vx * dx) == avx * adx && abs_int(vy * dy) == avy * ady) by (nonlinear_arith)
            requires
                avx == abs_int(vx),
                avy == abs_int(vy),
                adx == abs_int(dx),
                ady == abs_int(dy),
        ;
        assert(avx * adx <= vx * vx * adx && avy * ady <= vy * vy * ady) by (nonlinear_arith)
            requires
                avx <= vx * vx,
                avy <= vy * vy,
                adx >= 0,
                ady >= 0,
        ;
        assert(vx * vx * adx + vy * vy * ady <= len2 * m) by (nonlinear_arith)
            requires
                len2 == vx * vx + vy * vy,
                m == adx + ady,
                adx >= 0,
                ady >= 0,
        ;
        assert(len2 > 0) by (nonlinear_arith)
            requires
                len2 == vx * vx + vy * vy,
                len2 != 0,
        ;
        assert((m + 1) * len2 == len2 * m + len2) by (nonlinear_arith);
        if n >= 0 {
            lemma_div_between(n + len2 - 1, len2, 0, m);
        } else {
            lemma_div_between(-n, len2, 0, m);
        }
    }
}

/// `ceil(n / d)` for `d > 0`.
fn ceil_div_exec(n: i128, d: i128) -> (r: i128)
    requires
        d > 0,
        -0x4000_0000_0000_0000_0000_0000_0000_0000 < n < 0x4000_0000_0000_0000_0000_0000_0000_0000,
        d < 0x4000_0000_0000_0000_0000_0000_0000_0000,
    ensures
        r == ceil_div(n as int, d as int),
{
    if n >= 0 {
        ((n + d - 1) as u128 / d as u128) as i128
    } else {
        -(((-n) as u128 / d as u128) as i128)
    }
}

/// `coefficient(vx, vy, dx, dy)`, for components below `coord_limit`.
fn coefficient_exec(vx: i128, vy: i128, dx: i128, dy: i128) -> (r: i128)
    requires
        abs_int(vx as int) < coord_limit(),
        abs_int(vy as int) < coord_limit(),
        abs_int(dx as int) < coord_limit(),
        abs_int(dy as int) < coord_limit(),
    ensures
        r == coefficient(vx as int, vy as int, dx as int, dy as int),
        abs_int(r as int) <= abs_int(dx as int) + abs_int(dy as int),
{
    proof {
        lemma_coefficient_bound(vx as int, vy as int, dx as int, dy as int);
        lemma_product_bound(vx as int, vx as int);
        lemma_product_bound(vy as int, vy as int);
        lemma_product_bound(vx as int, dx as int);
        lemma_product_bound(vy as int, dy as int);
        assert(vx * vx >= 0 && vy * vy >= 0) by (nonlinear_arith);
    }
    let len2: i128 = vx * vx + vy * vy;
    if len2 == 0 {
        return 0;
    }
    let n: i128 = vx * dx + vy * dy;
    ceil_div_exec(n, len2)
}

/// Products of components below `coord_limit` fit comfortably in `i128`.
proof fn lemma_product_bound(a: int, b: int)
    requires
        abs_int(a) < coord_limit(),
        abs_int(b) < coord_limit(),
    ensures
        abs_int(a * b) < coord_limit() * coord_limit(),
        coord_limit() * coord_limit() == 0x1000_0000_0000_0000_0000_0000_0000_0000,
{
    assert(abs_int(a * b) == abs_int(a) * abs_int(b)) by (nonlinear_arith);
    assert(abs_int(a) * abs_int(b) < coord_limit() * coord_limit()) by (nonlinear_arith)
        requires
            0 <= abs_int(a) < coord_limit(),
            0 <= abs_int(b) < coord_limit(),
    ;
}

impl<'a> TextureMapping<'a> {
    /// The texel that pixel `(x, y)` maps to, as `texture_sample` gives it.
    fn sample(&self, x: usize, y: usize, width: usize, height: usize) -> (r: [u8; 4])
        requires
            self.texture.wf(),
            inside(self.vertices.0, width as int, height as int),
            inside(self.vertices.1, width as int, height as int),
            inside(self.vertices.2, width as int, height as int),
            x < width < coord_limit(),
            y < height < coord_limit(),
            width * height * 4 <= usize::MAX,
        ensures
            r@ == texture_sample(self.vertices, self.texture_vertices, self.texture@, x as int, y as int),
    {
        let (v0, v1, v2) = self.vertices;
        let (t0, t1, t2) = self.texture_vertices;
        let dx: i128 = x as i128 - v2.x as i128;
        let dy: i128 = y as i128 - v2.y as i128;
        proof {
            lemma_offset_bound(x as int, y as int, v2.x as int, v2.y as int, width as int, height as int);
        }
        let ca = coefficient_exec(v0.x as i128 - v2.x as i128, v0.y as i128 - v2.y as i128, dx, dy);
        let cb = coefficient_exec(v1.x as i128 - v2.x as i128, v1.y as i128 - v2.y as i128, dx, dy);
        let tax: i128 = t0.x as i128 - t2.x as i128;
        let tay: i128 = t0.y as i128 - t2.y as i128;
        let tbx: i128 = t1.x as i128 - t2.x as i128;
        let tby: i128 = t1.y as i128 - t2.y as i128;
        proof {
            lemma_texture_term(ca as int, tax as int);
            lemma_texture_term(ca as int, tay as int);
            lemma_texture_term(cb as int, tbx as int);
            lemma_texture_term(cb as int, tby as int);
        }
        assert(usize::MAX <= 0xffff_ffff_ffff_ffff);
        let tx: i128 = ca * tax + cb * tbx + t2.x as i128;
        let ty: i128 = ca * tay + cb * tby + t2.y as i128;
        if tx < 0 || ty < 0 || tx > 0xffff_ffff || ty > 0xffff_ffff {
            return [0, 0, 0, 0];
        }
        self.texture.get_pixel(tx as u32, ty as u32)
    }
}

impl<'a> PixelSource<'a> {
    pub(crate) fn color_at(&self, x: usize, y: usize, width: usize, height: usize) -> (r: [u8; 4])
        requires
            source_ready(*self, width as int, height as int),
            x < width < coord_limit(),
            y < height < coord_limit(),
            width * height * 4 <= usize::MAX,
        ensures
            r@ == color_of(*self, x as int, y as int),
    {
        match self {
            PixelSource::Solid(c) => *c,
            PixelSource::Mapped(m) => m.sample(x, y, width, height),
        }
    }
}

/// The offset of a pixel from a vertex of a surface whose buffer fits in
/// memory is small: `|dx| + |dy|` stays below `2^62 - 1`.
proof fn lemma_offset_bound(x: int, y: int, vx: int, vy: int, width: int, height: int)
    requires
        0 <= x < width,
        0 <= vx < width,
        0 <= y < height,
        0 <= vy < height,
        width * height * 4 <= usize::MAX,
    ensures
        abs_int(x - vx) + abs_int(y - vy) <= 0x3fff_ffff_ffff_fffe,
{
    assert(usize::MAX <= 0xffff_ffff_ffff_ffff);
    assert(width + height - 2 <= width * height - 1) by (nonlinear_arith)
        requires
            1 <= width,
            1 <= height,
    ;
}

/// A coefficient times a texture edge component fits comfortably in `i128`:
/// two such products and a texture coordinate add up to less than `2^127`.
proof fn lemma_texture_term(c: int, t: int)
    requires
        abs_int(c) <= 0x3fff_ffff_ffff_fffe,
        abs_int(t) <= 0xffff_ffff_ffff_ffff,
    ensures
        -0x3fff_ffff_ffff_fffe * 0xffff_ffff_ffff_ffff <= c * t <= 0x3fff_ffff_ffff_fffe
            * 0xffff_ffff_ffff_ffff,
        2 * (0x3fff_ffff_ffff_fffe * 0xffff_ffff_ffff_ffff) + 0xffff_ffff_ffff_ffff
            < 0x8000_0000_0000_0000_0000_0000_0000_0000,
{
    assert(abs_int(c * t) == abs_int(c) * abs_int(t)) by (nonlinear_arith);
    assert(abs_int(c) * abs_int(t) <= 0x3fff_ffff_ffff_fffe * 0xffff_ffff_ffff_ffff)
        by (nonlinear_arith)
        requires
            0 <= abs_int(c) <= 0x3fff_ffff_ffff_fffe,
            0 <= abs_int(t) <= 0xffff_ffff_ffff_ffff,
    ;
}

} // verus!
