//! Scan conversion: the spans that fill a triangle, what painting them does
//! to a byte buffer, and the code that paints them.

use vstd::prelude::*;

use vstd::arithmetic::div_mod::lemma_fundamental_div_mod;

use crate::back_end::{
    composite, lemma_pixel_of_set, pixel_in, pixel_of, write_pixel, RgbaBufferGraphics,
};
use crate::mapping::{color_of, lemma_color_len, source_ready, PixelSource};
use crate::primitives::{sorted3, BufferPoint};

verus! {

/// A row span of a triangle's fill: row `.0`, columns `.1` to `.2` inclusive.
pub type Span = (int, int, int);

/// An edge from `.0` to `.1`, whose start comes no later than its end.
pub type Edge = (BufferPoint, BufferPoint);

pub open spec fn is_horizontal(e: Edge) -> bool {
    e.0.y == e.1.y
}

pub open spec fn min_int(a: int, b: int) -> int {
    if a <= b { a } else { b }
}

pub open spec fn max_int(a: int, b: int) -> int {
    if a <= b { b } else { a }
}

/// The column where a non-horizontal edge crosses row `y`:
/// `start.x + (y - start.y) * dx / dy`, rounded to the nearest integer
/// (halves up).
pub open spec fn edge_x(e: Edge, y: int) -> int {
    let dy = e.1.y - e.0.y;
    (2 * e.0.x * dy + 2 * (y - e.0.y) * (e.1.x - e.0.x) + dy) / (2 * dy)
}

/// The single span that draws a horizontal edge.
pub open spec fn horizontal_span(e: Edge) -> Span {
    (e.0.y as int, min_int(e.0.x as int, e.1.x as int), max_int(e.0.x as int, e.1.x as int))
}

/// The first row that the later edge `f` shares with the earlier edge `e`.
pub open spec fn overlap_lo(e: Edge, f: Edge) -> int {
    f.0.y as int
}

/// The last row that the later edge `f` shares with the earlier edge `e`.
pub open spec fn overlap_hi(e: Edge, f: Edge) -> int {
    min_int(e.1.y as int, f.1.y as int)
}

/// One span for each row of the overlap of two non-horizontal edges, from
/// the top down, between the columns where the two edges cross that row.
pub open spec fn pair_spans(e: Edge, f: Edge) -> Seq<Span> {
    let lo = overlap_lo(e, f);
    let hi = overlap_hi(e, f);
    Seq::new(
        if lo <= hi { (hi - lo + 1) as nat } else { 0 },
        |k: int|
            (
                lo + k,
                min_int(edge_x(e, lo + k), edge_x(f, lo + k)),
                max_int(edge_x(e, lo + k), edge_x(f, lo + k)),
            ),
    )
}

/// The spans of a non-horizontal edge `e` paired with a later edge `f`:
/// none when `f` is horizontal.
pub open spec fn later_pair(e: Edge, f: Edge) -> Seq<Span> {
    if is_horizontal(f) {
        Seq::empty()
    } else {
        pair_spans(e, f)
    }
}

/// The spans that fill the triangle with sorted vertices `a`, `b`, `c`, in
/// the order they are drawn. Its edges are `(a, b)`, `(a, c)`, `(b, c)`; a
/// horizontal edge is drawn as one span, and each other edge is paired with
/// every later non-horizontal edge over the rows the two share.
pub open spec fn triangle_spans(a: BufferPoint, b: BufferPoint, c: BufferPoint) -> Seq<Span> {
    let e0 = (a, b);
    let e1 = (a, c);
    let e2 = (b, c);
    let part0 = if is_horizontal(e0) {
        seq![horizontal_span(e0)]
    } else {
        later_pair(e0, e1) + later_pair(e0, e2)
    };
    let part1 = if is_horizontal(e1) {
        seq![horizontal_span(e1)]
    } else {
        later_pair(e1, e2)
    };
    let part2 = if is_horizontal(e2) {
        seq![horizontal_span(e2)]
    } else {
        Seq::empty()
    };
    part0 + part1 + part2
}

/// The buffer after columns `lo` up to `end` (exclusive) of row `y` are
/// written, left to right, with the colors of `src`.
pub open spec fn paint_row(
    buf: Seq<u8>,
    width: int,
    y: int,
    lo: int,
    end: int,
    src: PixelSource,
) -> Seq<u8>
    decreases end - lo,
{
    if end <= lo {
        buf
    } else {
        write_pixel(
            paint_row(buf, width, y, lo, end - 1, src),
            (end - 1) + y * width,
            color_of(src, end - 1, y),
        )
    }
}

/// The buffer after each span of `spans` is painted in turn.
pub open spec fn paint_spans(buf: Seq<u8>, width: int, spans: Seq<Span>, src: PixelSource) -> Seq<
    u8,
>
    decreases spans.len(),
{
    if spans.len() == 0 {
        buf
    } else {
        let s = spans.last();
        paint_row(paint_spans(buf, width, spans.drop_last(), src), width, s.0, s.1, s.2 + 1, src)
    }
}

/// Painting two lists of spans one after the other is painting their
/// concatenation.
pub proof fn lemma_paint_spans_append(
    buf: Seq<u8>,
    width: int,
    a: Seq<Span>,
    b: Seq<Span>,
    src: PixelSource,
)
    ensures
        paint_spans(buf, width, a + b, src) == paint_spans(
            paint_spans(buf, width, a, src),
            width,
            b,
            src,
        ),
    decreases b.len(),
{
    if b.len() == 0 {
        assert(a + b =~= a);
    } else {
        lemma_paint_spans_append(buf, width, a, b.drop_last(), src);
        assert((a + b).drop_last() =~= a + b.drop_last());
        assert((a + b).last() == b.last());
    }
}

/// One more than the largest coordinate that a surface's pixels can have.
pub open spec fn coord_limit() -> int {
    0x4000_0000_0000_0000
}

/// A surface whose buffer fits in memory has coordinates below `coord_limit`.
proof fn lemma_surface_coords(width: int, height: int)
    requires
        1 <= width,
        1 <= height,
        width * height * 4 <= usize::MAX,
    ensures
        width < coord_limit(),
        height < coord_limit(),
{
    assert(usize::MAX <= 0xffff_ffff_ffff_ffff);
    assert(width <= width * height) by (nonlinear_arith)
        requires
            1 <= height,
            1 <= width,
    ;
    assert(height <= width * height) by (nonlinear_arith)
        requires
            1 <= height,
            1 <= width,
    ;
}

/// Bounds on `n` in multiples of `d` bound the quotient `n / d`.
pub(crate) proof fn lemma_div_between(n: int, d: int, lo: int, hi: int)
    requires
        d > 0,
        lo * d <= n,
        n < (hi + 1) * d,
    ensures
        lo <= n / d <= hi,
{
    lemma_fundamental_div_mod(n, d);
    let q = n / d;
    let r = n % d;
    assert(0 <= r < d);
    assert(lo <= q <= hi) by (nonlinear_arith)
        requires
            n == d * q + r,
            0 <= r < d,
            lo * d <= n,
            n < (hi + 1) * d,
            d > 0,
    ;
}

/// A non-horizontal edge crosses each row it spans between its two end
/// columns.
pub proof fn lemma_edge_x_between(e: Edge, y: int)
    requires
        e.0.y < e.1.y,
        e.0.y <= y <= e.1.y,
    ensures
        min_int(e.0.x as int, e.1.x as int) <= edge_x(e, y) <= max_int(e.0.x as int, e.1.x as int),
        2 * e.0.x * (e.1.y - e.0.y) + 2 * (y - e.0.y) * (e.1.x - e.0.x) + (e.1.y - e.0.y) >= 0,
{
    let sx = e.0.x as int;
    let ex = e.1.x as int;
    let dy = e.1.y - e.0.y;
    let t = y - e.0.y;
    let dx = ex - sx;
    let n = 2 * sx * dy + 2 * t * dx + dy;
    if dx >= 0 {
        assert(sx * (2 * dy) <= n && n < (ex + 1) * (2 * dy)) by (nonlinear_arith)
            requires
                n == 2 * sx * dy + 2 * t * dx + dy,
                0 <= t <= dy,
                dy > 0,
                dx >= 0,
                ex == sx + dx,
        ;
        lemma_div_between(n, 2 * dy, sx, ex);
        assert(n >= 0) by (nonlinear_arith)
            requires
                sx * (2 * dy) <= n,
                sx >= 0,
                dy > 0,
        ;
    } else {
        assert(ex * (2 * dy) <= n && n < (sx + 1) * (2 * dy)) by (nonlinear_arith)
            requires
                n == 2 * sx * dy + 2 * t * dx + dy,
                0 <= t <= dy,
                dy > 0,
                dx < 0,
                ex == sx + dx,
        ;
        lemma_div_between(n, 2 * dy, ex, sx);
        assert(n >= 0) by (nonlinear_arith)
            requires
                ex * (2 * dy) <= n,
                ex >= 0,
                dy > 0,
        ;
    }
}

/// The column where edge `(s, e)` crosses row `y`.
fn edge_column(s: BufferPoint, e: BufferPoint, y: usize) -> (r: usize)
    requires
        s.y < e.y,
        s.y <= y <= e.y,
        s.x < coord_limit(),
        e.x < coord_limit(),
        e.y < coord_limit(),
    ensures
        r == edge_x((s, e), y as int),
{
    proof {
        lemma_edge_x_between((s, e), y as int);
    }
    let dy: i128 = e.y as i128 - s.y as i128;
    let t: i128 = y as i128 - s.y as i128;
    let sx: i128 = s.x as i128;
    let dx: i128 = e.x as i128 - s.x as i128;
    proof {
        assert(0 <= sx * dy < coord_limit() * coord_limit()) by (nonlinear_arith)
            requires
                0 <= sx < coord_limit(),
                0 < dy < coord_limit(),
        ;
        assert(-coord_limit() * coord_limit() < t * dx < coord_limit() * coord_limit())
            by (nonlinear_arith)
            requires
                0 <= t < coord_limit(),
                -coord_limit() < dx < coord_limit(),
        ;
    }
    let n: i128 = 2 * (sx * dy) + 2 * (t * dx) + dy;
    proof {
        assert(n == 2 * s.x * (e.y - s.y) + 2 * (y - s.y) * (e.x - s.x) + (e.y
            - s.y)) by (nonlinear_arith)
            requires
                n == 2 * (sx * dy) + 2 * (t * dx) + dy,
                sx == s.x,
                dy == e.y - s.y,
                t == y - s.y,
                dx == e.x - s.x,
        ;
        assert((n as int) / (2 * (dy as int)) == edge_x((s, e), y as int));
    }
    let q: u128 = n as u128 / (2 * dy) as u128;
    q as usize
}

/// Paints columns `lo` to `hi` of row `y` with the colors of `src`.
fn fill_span(g: &mut RgbaBufferGraphics, y: usize, lo: usize, hi: usize, src: &PixelSource)
    requires
        old(g).wf(),
        lo <= hi < old(g)@.width,
        y < old(g)@.height,
        source_ready(*src, old(g)@.width as int, old(g)@.height as int),
    ensures
        final(g).wf(),
        final(g)@.width == old(g)@.width,
        final(g)@.height == old(g)@.height,
        final(g)@.bytes == paint_row(
            old(g)@.bytes,
            old(g)@.width as int,
            y as int,
            lo as int,
            hi + 1,
            *src,
        ),
{
    let width = g.width();
    let height = g.height();
    proof {
        lemma_surface_coords(width as int, height as int);
    }
    let mut x: usize = lo;
    while x <= hi
        invariant
            g.wf(),
            width == g@.width,
            height == g@.height,
            width < coord_limit(),
            height < coord_limit(),
            source_ready(*src, width as int, height as int),
            g@.width == old(g)@.width,
            g@.height == old(g)@.height,
            lo <= x <= hi + 1,
            hi < g@.width,
            y < g@.height,
            g@.bytes == paint_row(old(g)@.bytes, g@.width as int, y as int, lo as int, x as int, *src),
        decreases hi + 1 - x,
    {
        let color = src.color_at(x, y, width, height);
        match g.coords_to_pixel_index(&BufferPoint::new(x, y)) {
            Ok(idx) => g.write_color_bytes(idx, color),
            Err(_) => {},
        }
        x = x + 1;
    }
}

/// Whether `p` is a pixel of a surface of the given size.
pub open spec fn inside(p: BufferPoint, width: int, height: int) -> bool {
    p.x < width && p.y < height
}

/// Paints the spans where the non-horizontal edge `e` and the later
/// non-horizontal edge `f` share rows.
fn fill_pair(g: &mut RgbaBufferGraphics, e: Edge, f: Edge, src: &PixelSource)
    requires
        old(g).wf(),
        e.0.y < e.1.y,
        f.0.y < f.1.y,
        e.0.y <= f.0.y,
        f.0.y <= e.1.y,
        inside(e.0, old(g)@.width as int, old(g)@.height as int),
        inside(e.1, old(g)@.width as int, old(g)@.height as int),
        inside(f.0, old(g)@.width as int, old(g)@.height as int),
        inside(f.1, old(g)@.width as int, old(g)@.height as int),
        source_ready(*src, old(g)@.width as int, old(g)@.height as int),
    ensures
        final(g).wf(),
        final(g)@.width == old(g)@.width,
        final(g)@.height == old(g)@.height,
        final(g)@.bytes == paint_spans(old(g)@.bytes, old(g)@.width as int, pair_spans(e, f), *src),
{
    let ghost width = g@.width as int;
    let ghost spans = pair_spans(e, f);
    proof {
        lemma_surface_coords(g@.width as int, g@.height as int);
    }
    let lo = f.0.y;
    let hi = if e.1.y <= f.1.y { e.1.y } else { f.1.y };
    let height = g.height();
    let mut y: usize = lo;
    assert(spans.take(0) =~= Seq::<Span>::empty());
    while y <= hi
        invariant
            g.wf(),
            height == g@.height,
            g@.width == old(g)@.width,
            g@.height == old(g)@.height,
            width == g@.width,
            spans == pair_spans(e, f),
            lo == overlap_lo(e, f),
            hi == overlap_hi(e, f),
            lo <= y <= hi + 1,
            hi < g@.height,
            g@.width < coord_limit(),
            g@.height < coord_limit(),
            e.0.y < e.1.y,
            f.0.y < f.1.y,
            e.0.y <= f.0.y,
            inside(e.0, g@.width as int, g@.height as int),
            inside(e.1, g@.width as int, g@.height as int),
            inside(f.0, g@.width as int, g@.height as int),
            inside(f.1, g@.width as int, g@.height as int),
            source_ready(*src, g@.width as int, g@.height as int),
            g@.bytes == paint_spans(old(g)@.bytes, width, spans.take(y - lo), *src),
        decreases hi + 1 - y,
    {
        proof {
            lemma_edge_x_between(e, y as int);
            lemma_edge_x_between(f, y as int);
        }
        let x1 = edge_column(e.0, e.1, y);
        let x2 = edge_column(f.0, f.1, y);
        let (x_lo, x_hi) = if x1 <= x2 { (x1, x2) } else { (x2, x1) };
        let ghost before = spans.take(y - lo);
        fill_span(g, y, x_lo, x_hi, src);
        proof {
            let k = y - lo;
            assert(spans[k] == (y as int, x_lo as int, x_hi as int));
            assert(spans.take(k + 1).drop_last() =~= before);
            assert(spans.take(k + 1).last() == spans[k]);
        }
        y = y + 1;
    }
    assert(spans.take(y - lo) =~= spans);
}

/// The spans of one span alone paint that span.
proof fn lemma_paint_single(buf: Seq<u8>, width: int, s: Span, src: PixelSource)
    ensures
        paint_spans(buf, width, seq![s], src) == paint_row(buf, width, s.0, s.1, s.2 + 1, src),
{
    assert(seq![s].drop_last() =~= Seq::<Span>::empty());
    assert(seq![s].last() == s);
    assert(paint_spans(buf, width, Seq::<Span>::empty(), src) == buf);
}

/// Paints a horizontal edge as one span.
fn fill_horizontal(g: &mut RgbaBufferGraphics, e: Edge, src: &PixelSource)
    requires
        old(g).wf(),
        e.0.y == e.1.y,
        inside(e.0, old(g)@.width as int, old(g)@.height as int),
        inside(e.1, old(g)@.width as int, old(g)@.height as int),
        source_ready(*src, old(g)@.width as int, old(g)@.height as int),
    ensures
        final(g).wf(),
        final(g)@.width == old(g)@.width,
        final(g)@.height == old(g)@.height,
        final(g)@.bytes == paint_spans(
            old(g)@.bytes,
            old(g)@.width as int,
            seq![horizontal_span(e)],
            *src,
        ),
{
    let (x_lo, x_hi) = if e.0.x <= e.1.x { (e.0.x, e.1.x) } else { (e.1.x, e.0.x) };
    fill_span(g, e.0.y, x_lo, x_hi, src);
    proof {
        lemma_paint_single(old(g)@.bytes, old(g)@.width as int, horizontal_span(e), *src);
    }
}

/// Whether every pixel of a `width` by `height` surface outside the bounding
/// box of `a`, `b`, `c` has the same bytes in `new` as in `old`.
pub open spec fn same_outside_box(
    old: Seq<u8>,
    new: Seq<u8>,
    width: int,
    height: int,
    a: BufferPoint,
    b: BufferPoint,
    c: BufferPoint,
) -> bool {
    forall|x: int, y: int|
        0 <= x < width && 0 <= y < height && !#[trigger] in_bounding_box(a, b, c, x, y) ==> pixel_of(
            new,
            x + y * width,
        ) == pixel_of(old, x + y * width)
}

/// Fills the triangle with sorted vertices `a`, `b`, `c` by painting
/// `triangle_spans(a, b, c)`; no pixel outside its bounding box changes.
pub(crate) fn render_triangle(
    g: &mut RgbaBufferGraphics,
    a: BufferPoint,
    b: BufferPoint,
    c: BufferPoint,
    src: &PixelSource,
)
    requires
        old(g).wf(),
        sorted3(a, b, c),
        inside(a, old(g)@.width as int, old(g)@.height as int),
        inside(b, old(g)@.width as int, old(g)@.height as int),
        inside(c, old(g)@.width as int, old(g)@.height as int),
        source_ready(*src, old(g)@.width as int, old(g)@.height as int),
    ensures
        final(g).wf(),
        final(g)@.width == old(g)@.width,
        final(g)@.height == old(g)@.height,
        final(g)@.bytes == paint_spans(
            old(g)@.bytes,
            old(g)@.width as int,
            triangle_spans(a, b, c),
            *src,
        ),
        same_outside_box(
            old(g)@.bytes,
            final(g)@.bytes,
            old(g)@.width as int,
            old(g)@.height as int,
            a,
            b,
            c,
        ),
{
    let ghost width = g@.width as int;
    let ghost start = g@.bytes;
    let e0 = (a, b);
    let e1 = (a, c);
    let e2 = (b, c);
    if a.y == b.y {
        fill_horizontal(g, e0, src);
    } else {
        let ghost mid = g@.bytes;
        if a.y != c.y {
            fill_pair(g, e0, e1, src);
        } else {
            assert(paint_spans(mid, width, Seq::<Span>::empty(), *src) == mid);
        }
        let ghost mid2 = g@.bytes;
        if b.y != c.y {
            fill_pair(g, e0, e2, src);
        } else {
            assert(paint_spans(mid2, width, Seq::<Span>::empty(), *src) == mid2);
        }
        proof {
            lemma_paint_spans_append(start, width, later_pair(e0, e1), later_pair(e0, e2), *src);
        }
    }
    let ghost part0 = if a.y == b.y {
        seq![horizontal_span(e0)]
    } else {
        later_pair(e0, e1) + later_pair(e0, e2)
    };
    assert(g@.bytes == paint_spans(start, width, part0, *src));
    let ghost after0 = g@.bytes;
    if a.y == c.y {
        fill_horizontal(g, e1, src);
    } else if b.y != c.y {
        fill_pair(g, e1, e2, src);
    } else {
        assert(paint_spans(after0, width, Seq::<Span>::empty(), *src) == after0);
    }
    let ghost part1 = if a.y == c.y {
        seq![horizontal_span(e1)]
    } else {
        later_pair(e1, e2)
    };
    proof {
        lemma_paint_spans_append(start, width, part0, part1, *src);
    }
    let ghost after1 = g@.bytes;
    if b.y == c.y {
        fill_horizontal(g, e2, src);
    } else {
        assert(paint_spans(after1, width, Seq::<Span>::empty(), *src) == after1);
    }
    let ghost part2 = if b.y == c.y {
        seq![horizontal_span(e2)]
    } else {
        Seq::<Span>::empty()
    };
    proof {
        lemma_paint_spans_append(start, width, part0 + part1, part2, *src);
        let height = g@.height as int;
        assert forall|x: int, y: int|
            0 <= x < width && 0 <= y < height && !#[trigger] in_bounding_box(a, b, c, x, y)
                implies pixel_of(g@.bytes, x + y * width) == pixel_of(start, x + y * width) by {
            lemma_fill_within_bounding_box(a, b, c, start, width, height, *src, x, y);
        }
    }
}

/// Checks that `a`, `b`, `c` are pixels of the surface.
pub(crate) fn all_inside(g: &RgbaBufferGraphics, a: &BufferPoint, b: &BufferPoint, c: &BufferPoint) -> (r: bool)
    ensures
        r == (inside(*a, g@.width as int, g@.height as int) && inside(
            *b,
            g@.width as int,
            g@.height as int,
        ) && inside(*c, g@.width as int, g@.height as int)),
{
    let w = g.width();
    let h = g.height();
    a.x < w && a.y < h && b.x < w && b.y < h && c.x < w && c.y < h
}

/// Whether some span of `spans` paints pixel `(x, y)`.
pub open spec fn covers(spans: Seq<Span>, x: int, y: int) -> bool {
    exists|k: int| 0 <= k < spans.len() && #[trigger] spans[k].0 == y && spans[k].1 <= x <= spans[k].2
}

/// Whether `(x, y)` lies in the axis-aligned bounding box of `a`, `b`, `c`.
pub open spec fn in_bounding_box(a: BufferPoint, b: BufferPoint, c: BufferPoint, x: int, y: int) -> bool {
    &&& min_int(a.x as int, min_int(b.x as int, c.x as int)) <= x
    &&& x <= max_int(a.x as int, max_int(b.x as int, c.x as int))
    &&& min_int(a.y as int, min_int(b.y as int, c.y as int)) <= y
    &&& y <= max_int(a.y as int, max_int(b.y as int, c.y as int))
}

/// Whether every span of `spans` lies in the bounding box of `a`, `b`, `c`,
/// left end first.
pub open spec fn spans_in_box(spans: Seq<Span>, a: BufferPoint, b: BufferPoint, c: BufferPoint) -> bool {
    forall|k: int|
        0 <= k < spans.len() ==> {
            &&& in_bounding_box(a, b, c, #[trigger] spans[k].1, spans[k].0)
            &&& in_bounding_box(a, b, c, spans[k].2, spans[k].0)
            &&& spans[k].1 <= spans[k].2
        }
}

/// The spans of two edges with ends in a box lie in that box.
proof fn lemma_pair_spans_in_box(e: Edge, f: Edge, a: BufferPoint, b: BufferPoint, c: BufferPoint)
    requires
        e.0.y < e.1.y,
        f.0.y < f.1.y,
        e.0.y <= f.0.y,
        in_bounding_box(a, b, c, e.0.x as int, e.0.y as int),
        in_bounding_box(a, b, c, e.1.x as int, e.1.y as int),
        in_bounding_box(a, b, c, f.0.x as int, f.0.y as int),
        in_bounding_box(a, b, c, f.1.x as int, f.1.y as int),
    ensures
        spans_in_box(pair_spans(e, f), a, b, c),
{
    let spans = pair_spans(e, f);
    assert forall|k: int| 0 <= k < spans.len() implies {
        &&& in_bounding_box(a, b, c, #[trigger] spans[k].1, spans[k].0)
        &&& in_bounding_box(a, b, c, spans[k].2, spans[k].0)
        &&& spans[k].1 <= spans[k].2
    } by {
        let y = overlap_lo(e, f) + k;
        lemma_edge_x_between(e, y);
        lemma_edge_x_between(f, y);
    }
}

/// Two lists of spans in a box make one.
proof fn lemma_spans_in_box_append(
    s1: Seq<Span>,
    s2: Seq<Span>,
    a: BufferPoint,
    b: BufferPoint,
    c: BufferPoint,
)
    requires
        spans_in_box(s1, a, b, c),
        spans_in_box(s2, a, b, c),
    ensures
        spans_in_box(s1 + s2, a, b, c),
{
    let s = s1 + s2;
    assert forall|k: int| 0 <= k < s.len() implies {
        &&& in_bounding_box(a, b, c, #[trigger] s[k].1, s[k].0)
        &&& in_bounding_box(a, b, c, s[k].2, s[k].0)
        &&& s[k].1 <= s[k].2
    } by {
        if k < s1.len() {
            assert(s[k] == s1[k]);
            assert(in_bounding_box(a, b, c, s1[k].1, s1[k].0));
        } else {
            let j = k - s1.len();
            assert(s[k] == s2[j]);
            assert(in_bounding_box(a, b, c, s2[j].1, s2[j].0));
        }
    }
}

proof fn lemma_later_pair_in_box(e: Edge, f: Edge, a: BufferPoint, b: BufferPoint, c: BufferPoint)
    requires
        e.0.y < e.1.y,
        f.0.y <= f.1.y,
        e.0.y <= f.0.y,
        in_bounding_box(a, b, c, e.0.x as int, e.0.y as int),
        in_bounding_box(a, b, c, e.1.x as int, e.1.y as int),
        in_bounding_box(a, b, c, f.0.x as int, f.0.y as int),
        in_bounding_box(a, b, c, f.1.x as int, f.1.y as int),
    ensures
        spans_in_box(later_pair(e, f), a, b, c),
{
    if !is_horizontal(f) {
        lemma_pair_spans_in_box(e, f, a, b, c);
    }
}

/// Every span of a sorted triangle's fill lies in the triangle's bounding
/// box.
pub proof fn lemma_triangle_spans_in_box(a: BufferPoint, b: BufferPoint, c: BufferPoint)
    requires
        sorted3(a, b, c),
    ensures
        spans_in_box(triangle_spans(a, b, c), a, b, c),
{
    let e0 = (a, b);
    let e1 = (a, c);
    let e2 = (b, c);
    let part0 = if is_horizontal(e0) {
        seq![horizontal_span(e0)]
    } else {
        later_pair(e0, e1) + later_pair(e0, e2)
    };
    let part1 = if is_horizontal(e1) {
        seq![horizontal_span(e1)]
    } else {
        later_pair(e1, e2)
    };
    let part2 = if is_horizontal(e2) {
        seq![horizontal_span(e2)]
    } else {
        Seq::<Span>::empty()
    };
    if is_horizontal(e0) {
        assert(spans_in_box(part0, a, b, c));
    } else {
        lemma_later_pair_in_box(e0, e1, a, b, c);
        lemma_later_pair_in_box(e0, e2, a, b, c);
        lemma_spans_in_box_append(later_pair(e0, e1), later_pair(e0, e2), a, b, c);
    }
    if is_horizontal(e1) {
        assert(spans_in_box(part1, a, b, c));
    } else {
        lemma_later_pair_in_box(e1, e2, a, b, c);
    }
    assert(spans_in_box(part2, a, b, c));
    lemma_spans_in_box_append(part0, part1, a, b, c);
    lemma_spans_in_box_append(part0 + part1, part2, a, b, c);
    assert(triangle_spans(a, b, c) == part0 + part1 + part2);
}

/// Distinct pixels of a row-major buffer have distinct indices.
pub(crate) proof fn lemma_distinct_pixels(x1: int, y1: int, x2: int, y2: int, width: int)
    requires
        0 <= x1 < width,
        0 <= x2 < width,
        0 <= y1,
        0 <= y2,
        x1 != x2 || y1 != y2,
    ensures
        x1 + y1 * width != x2 + y2 * width,
{
    if y1 < y2 {
        assert(x1 + y1 * width < x2 + y2 * width) by (nonlinear_arith)
            requires
                0 <= x1 < width,
                0 <= x2,
                y1 < y2,
        ;
    } else if y2 < y1 {
        assert(x2 + y2 * width < x1 + y1 * width) by (nonlinear_arith)
            requires
                0 <= x2 < width,
                0 <= x1,
                y2 < y1,
        ;
    }
}

/// Writing one pixel leaves every other pixel as it was.
pub(crate) proof fn lemma_write_elsewhere(buf: Seq<u8>, j: int, color: Seq<u8>, i: int)
    requires
        pixel_in(buf, i),
        i != j,
        color.len() == 4,
    ensures
        write_pixel(buf, j, color).len() == buf.len(),
        pixel_of(write_pixel(buf, j, color), i) == pixel_of(buf, i),
{
    if pixel_in(buf, j) {
        lemma_pixel_of_set(buf, j, composite(pixel_of(buf, j), color), i);
    }
}

/// Painting part of a row leaves every pixel outside that part as it was.
proof fn lemma_row_untouched(
    buf: Seq<u8>,
    width: int,
    y: int,
    lo: int,
    end: int,
    src: PixelSource,
    px: int,
    py: int,
)
    requires
        0 <= px < width,
        0 <= py,
        0 <= y,
        0 <= lo,
        end <= width,
        pixel_in(buf, px + py * width),
        py != y || px < lo || px >= end,
    ensures
        paint_row(buf, width, y, lo, end, src).len() == buf.len(),
        pixel_of(paint_row(buf, width, y, lo, end, src), px + py * width) == pixel_of(
            buf,
            px + py * width,
        ),
    decreases end - lo,
{
    if end > lo {
        lemma_row_untouched(buf, width, y, lo, end - 1, src, px, py);
        lemma_distinct_pixels(px, py, end - 1, y, width);
        lemma_color_len(src, end - 1, y);
        lemma_write_elsewhere(
            paint_row(buf, width, y, lo, end - 1, src),
            (end - 1) + y * width,
            color_of(src, end - 1, y),
            px + py * width,
        );
    }
}

/// Painting spans leaves every pixel that no span covers as it was, where
/// the spans stay within the rows' columns.
pub proof fn lemma_paint_untouched(
    buf: Seq<u8>,
    width: int,
    spans: Seq<Span>,
    src: PixelSource,
    px: int,
    py: int,
)
    requires
        0 <= px < width,
        0 <= py,
        pixel_in(buf, px + py * width),
        forall|k: int| 0 <= k < spans.len() ==> 0 <= #[trigger] spans[k].0 && 0 <= spans[k].1 && spans[k].2 < width,
        !covers(spans, px, py),
    ensures
        paint_spans(buf, width, spans, src).len() == buf.len(),
        pixel_of(paint_spans(buf, width, spans, src), px + py * width) == pixel_of(
            buf,
            px + py * width,
        ),
    decreases spans.len(),
{
    if spans.len() > 0 {
        let rest = spans.drop_last();
        let s = spans.last();
        assert forall|k: int| 0 <= k < rest.len() implies 0 <= #[trigger] rest[k].0 && 0 <= rest[k].1
            && rest[k].2 < width by {
            assert(rest[k] == spans[k]);
        }
        if covers(rest, px, py) {
            let k = choose|k: int|
                0 <= k < rest.len() && #[trigger] rest[k].0 == py && rest[k].1 <= px <= rest[k].2;
            assert(spans[k] == rest[k]);
        }
        lemma_paint_untouched(buf, width, rest, src, px, py);
        assert(spans[spans.len() - 1] == s);
        lemma_row_untouched(
            paint_spans(buf, width, rest, src),
            width,
            s.0,
            s.1,
            s.2 + 1,
            src,
            px,
            py,
        );
    }
}

/// A triangle's fill lies within its bounding box: a pixel of the surface
/// outside that box is covered by no span, and painting the triangle's spans
/// leaves its bytes as they were.
pub proof fn lemma_fill_within_bounding_box(
    a: BufferPoint,
    b: BufferPoint,
    c: BufferPoint,
    buf: Seq<u8>,
    width: int,
    height: int,
    src: PixelSource,
    x: int,
    y: int,
)
    requires
        sorted3(a, b, c),
        inside(a, width, height),
        inside(b, width, height),
        inside(c, width, height),
        buf.len() == width * height * 4,
        0 <= x < width,
        0 <= y < height,
        !in_bounding_box(a, b, c, x, y),
    ensures
        !covers(triangle_spans(a, b, c), x, y),
        pixel_of(paint_spans(buf, width, triangle_spans(a, b, c), src), x + y * width)
            == pixel_of(buf, x + y * width),
{
    let spans = triangle_spans(a, b, c);
    lemma_triangle_spans_in_box(a, b, c);
    if covers(spans, x, y) {
        let k = choose|k: int|
            0 <= k < spans.len() && #[trigger] spans[k].0 == y && spans[k].1 <= x <= spans[k].2;
        assert(in_bounding_box(a, b, c, spans[k].1, spans[k].0));
        assert(in_bounding_box(a, b, c, spans[k].2, spans[k].0));
    }
    assert forall|k: int| 0 <= k < spans.len() implies 0 <= #[trigger] spans[k].0 && 0 <= spans[k].1
        && spans[k].2 < width by {
        assert(in_bounding_box(a, b, c, spans[k].1, spans[k].0));
        assert(in_bounding_box(a, b, c, spans[k].2, spans[k].0));
    }
    crate::back_end::lemma_index_fits(x, y, width, height);
    assert(4 * (x + y * width) + 4 <= buf.len()) by (nonlinear_arith)
        requires
            x + y * width < width * height,
            buf.len() == width * height * 4,
    ;
    lemma_paint_untouched(buf, width, spans, src, x, y);
}

/// A triangle whose three vertices share a row fills exactly the columns
/// from its leftmost to its rightmost vertex on that row, and nothing else.
pub proof fn lemma_flat_triangle_fill(a: BufferPoint, b: BufferPoint, c: BufferPoint, x: int, y: int)
    requires
        sorted3(a, b, c),
        a.y == b.y,
        b.y == c.y,
    ensures
        covers(triangle_spans(a, b, c), x, y) <==> (y == a.y && a.x <= x <= c.x),
{
    let spans = triangle_spans(a, b, c);
    assert(spans =~= seq![
        (a.y as int, a.x as int, b.x as int),
        (a.y as int, a.x as int, c.x as int),
        (a.y as int, b.x as int, c.x as int),
    ]);
    if y == a.y && a.x <= x <= c.x {
        assert(spans[1].0 == y && spans[1].1 <= x <= spans[1].2);
    }
}

} // verus!
