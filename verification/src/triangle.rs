//! Filled triangles by scan conversion. Vertices are given in 28.4 fixed
//! point (sixteenths of a pixel). A pixel belongs to the triangle when the
//! three edge functions are non-negative at it; an edge that is neither a
//! top nor a left edge is biased by one unit, so that a pixel on an edge
//! shared by two triangles belongs to exactly one of them.

use crate::bitmap::{lemma_with_pixel, Bitmap, BitmapView};
use vstd::prelude::*;

verus! {

/// The number of fractional bits of a vertex coordinate.
pub const SUBPIXEL_BITS: u32 = 4;

/// The number of vertex units in one pixel.
pub const SUBPIXEL: i32 = 16;

/// Whether an edge with the direction `(dx, dy)`, taken from its end to
/// its start, is a top or a left edge.
pub open spec fn is_top_left(dx: int, dy: int) -> bool {
    dy < 0 || (dy == 0 && dx > 0)
}

/// What is taken off the edge function of an edge with the direction
/// `(dx, dy)`: nothing for a top or left edge, one unit for any other.
pub open spec fn edge_bias(dx: int, dy: int) -> int {
    if is_top_left(dx, dy) {
        0
    } else {
        1
    }
}

/// The edge function of the edge from `a` to `b` without its bias, at the
/// pixel `(px, py)`: twice the signed area of the triangle that the pixel
/// spans with the edge.
pub open spec fn edge_area(a: (i32, i32), b: (i32, i32), px: int, py: int) -> int {
    (a.1 - b.1) * a.0 - (a.0 - b.0) * a.1 + 16 * ((a.0 - b.0) * py - (a.1 - b.1) * px)
}

/// The edge function of the edge from `a` to `b` at the pixel `(px, py)`.
pub open spec fn edge_value(a: (i32, i32), b: (i32, i32), px: int, py: int) -> int {
    edge_area(a, b, px, py) - edge_bias(a.0 - b.0, a.1 - b.1)
}

/// Whether the edge from `a` to `b` has the pixel `(px, py)` on its inner
/// side.
pub open spec fn edge_claims(a: (i32, i32), b: (i32, i32), px: int, py: int) -> bool {
    edge_value(a, b, px, py) >= 0
}

/// The first pixel coordinate that is not before the vertex coordinate `v`.
pub open spec fn pixel_ceil(v: int) -> int {
    (v + 15) / 16
}

pub open spec fn min3(a: int, b: int, c: int) -> int {
    if a <= b && a <= c {
        a
    } else if b <= c {
        b
    } else {
        c
    }
}

pub open spec fn max3(a: int, b: int, c: int) -> int {
    if a >= b && a >= c {
        a
    } else if b >= c {
        b
    } else {
        c
    }
}

/// Whether the pixel `(px, py)` lies in the box of whole pixels around the
/// triangle: from the first pixel not before its least coordinate up to,
/// but not including, the first pixel not before its greatest coordinate.
pub open spec fn in_bounding_box(
    v0: (i32, i32),
    v1: (i32, i32),
    v2: (i32, i32),
    px: int,
    py: int,
) -> bool {
    &&& pixel_ceil(min3(v0.0 as int, v1.0 as int, v2.0 as int)) <= px < pixel_ceil(
        max3(v0.0 as int, v1.0 as int, v2.0 as int),
    )
    &&& pixel_ceil(min3(v0.1 as int, v1.1 as int, v2.1 as int)) <= py < pixel_ceil(
        max3(v0.1 as int, v1.1 as int, v2.1 as int),
    )
}

/// Whether the triangle `v0 v1 v2` paints the pixel `(px, py)`.
pub open spec fn triangle_covers(
    v0: (i32, i32),
    v1: (i32, i32),
    v2: (i32, i32),
    px: int,
    py: int,
) -> bool {
    &&& in_bounding_box(v0, v1, v2, px, py)
    &&& edge_claims(v0, v1, px, py)
    &&& edge_claims(v1, v2, px, py)
    &&& edge_claims(v2, v0, px, py)
}

/// The colour of the pixel `(px, py)` after the triangle was drawn.
pub open spec fn triangle_pixel(
    dst: BitmapView,
    v0: (i32, i32),
    v1: (i32, i32),
    v2: (i32, i32),
    color: u32,
    px: int,
    py: int,
) -> u32 {
    if triangle_covers(v0, v1, v2, px, py) {
        color
    } else {
        dst.pixel(px, py)
    }
}

/// Walked in the two directions, an edge gives opposite areas.
pub proof fn lemma_edge_area_reverses(a: (i32, i32), b: (i32, i32), px: int, py: int)
    ensures
        edge_area(b, a, px, py) == -edge_area(a, b, px, py),
{
    let ax: int = a.0 as int;
    let ay: int = a.1 as int;
    let bx: int = b.0 as int;
    let by: int = b.1 as int;
    assert((by - ay) * bx - (bx - ax) * by + 16 * ((bx - ax) * py - (by - ay) * px) == -((ay - by)
        * ax - (ax - bx) * ay + 16 * ((ax - bx) * py - (ay - by) * px))) by (nonlinear_arith);
}

/// The top-left rule: of the two triangles on either side of an edge, one
/// walks the edge from `a` to `b` and the other from `b` to `a`; every
/// pixel is on the inner side of the edge for exactly one of them. So two
/// triangles that share an edge never both paint a pixel, and no pixel on
/// the edge is left out by both.
pub proof fn lemma_shared_edge_claimed_once(a: (i32, i32), b: (i32, i32), px: int, py: int)
    requires
        a != b,
    ensures
        edge_claims(a, b, px, py) != edge_claims(b, a, px, py),
{
    lemma_edge_area_reverses(a, b, px, py);
    assert(is_top_left(a.0 - b.0, a.1 - b.1) != is_top_left(b.0 - a.0, b.1 - a.1));
}

/// Two triangles with a common edge, walked in opposite directions, never
/// paint the same pixel.
pub proof fn lemma_adjacent_triangles_disjoint(
    a: (i32, i32),
    b: (i32, i32),
    c: (i32, i32),
    d: (i32, i32),
    px: int,
    py: int,
)
    requires
        a != b,
    ensures
        !(triangle_covers(a, b, c, px, py) && triangle_covers(b, a, d, px, py)),
{
    lemma_shared_edge_claimed_once(a, b, px, py);
}

/// A product with a positive factor has the sign of the other factor.
proof fn lemma_sign_of_product(s: int, k: int)
    by (nonlinear_arith)
    requires
        s > 0,
    ensures
        s * k >= 0 <==> k >= 0,
        s * k >= 1 <==> k >= 1,
{
}

/// A square split along its diagonal is painted exactly once: of the two
/// triangles into which the diagonal from the top-left corner `(x, y)` to
/// the bottom-right corner cuts the square of side `side`, exactly one
/// paints each pixel of the box of whole pixels around the square, and
/// neither paints any pixel outside it. The pixels on the diagonal go to
/// the upper right triangle.
pub proof fn lemma_split_square_painted_once(x: i32, y: i32, side: i32, px: int, py: int)
    requires
        side > 0,
        x + side <= i32::MAX,
        y + side <= i32::MAX,
    ensures
        ({
            let a = (x, y);
            let b = ((x + side) as i32, y);
            let c = ((x + side) as i32, (y + side) as i32);
            let d = (x, (y + side) as i32);
            let inside = pixel_ceil(x as int) <= px < pixel_ceil(x + side) && pixel_ceil(y as int)
                <= py < pixel_ceil(y + side);
            &&& inside ==> triangle_covers(a, c, b, px, py) != triangle_covers(a, d, c, px, py)
            &&& inside ==> (triangle_covers(a, c, b, px, py) <==> 16 * px - x >= 16 * py - y)
            &&& !inside ==> !triangle_covers(a, c, b, px, py) && !triangle_covers(
                a,
                d,
                c,
                px,
                py,
            )
        }),
{
    let a = (x, y);
    let b = ((x + side) as i32, y);
    let c = ((x + side) as i32, (y + side) as i32);
    let d = (x, (y + side) as i32);
    let s: int = side as int;
    let u: int = 16 * px - x;
    let v: int = 16 * py - y;
    // the edges of the upper right triangle
    assert(edge_area(a, c, px, py) == s * (u - v)) by (nonlinear_arith)
        requires
            edge_area(a, c, px, py) == (y - (y + s)) * x - (x - (x + s)) * y + 16 * ((x - (x + s))
                * py - (y - (y + s)) * px),
            u == 16 * px - x,
            v == 16 * py - y,
    ;
    assert(edge_area(c, b, px, py) == s * (s - u)) by (nonlinear_arith)
        requires
            edge_area(c, b, px, py) == ((y + s) - y) * (x + s) - ((x + s) - (x + s)) * (y + s) + 16
                * (((x + s) - (x + s)) * py - ((y + s) - y) * px),
            u == 16 * px - x,
    ;
    assert(edge_area(b, a, px, py) == s * v) by (nonlinear_arith)
        requires
            edge_area(b, a, px, py) == (y - y) * (x + s) - ((x + s) - x) * y + 16 * (((x + s) - x)
                * py - (y - y) * px),
            v == 16 * py - y,
    ;
    // the edges of the lower left triangle
    assert(edge_area(a, d, px, py) == s * u) by (nonlinear_arith)
        requires
            edge_area(a, d, px, py) == (y - (y + s)) * x - (x - x) * y + 16 * ((x - x) * py - (y - (
            y + s)) * px),
            u == 16 * px - x,
    ;
    assert(edge_area(d, c, px, py) == s * (s - v)) by (nonlinear_arith)
        requires
            edge_area(d, c, px, py) == ((y + s) - (y + s)) * x - (x - (x + s)) * (y + s) + 16 * ((x
                - (x + s)) * py - ((y + s) - (y + s)) * px),
            v == 16 * py - y,
    ;
    assert(edge_area(c, a, px, py) == s * (v - u)) by (nonlinear_arith)
        requires
            edge_area(c, a, px, py) == ((y + s) - y) * (x + s) - ((x + s) - x) * (y + s) + 16 * (((
            x + s) - x) * py - ((y + s) - y) * px),
            u == 16 * px - x,
            v == 16 * py - y,
    ;
    lemma_sign_of_product(s, u - v);
    lemma_sign_of_product(s, s - u);
    lemma_sign_of_product(s, v);
    lemma_sign_of_product(s, u);
    lemma_sign_of_product(s, s - v);
    lemma_sign_of_product(s, v - u);
    assert(in_bounding_box(a, c, b, px, py) == in_bounding_box(a, d, c, px, py));
    assert(in_bounding_box(a, c, b, px, py) == (pixel_ceil(x as int) <= px < pixel_ceil(x + side)
        && pixel_ceil(y as int) <= py < pixel_ceil(y + side)));
    assert(pixel_ceil(x as int) <= px <==> u >= 0);
    assert(px < pixel_ceil(x + side) <==> s - u >= 1);
    assert(pixel_ceil(y as int) <= py <==> v >= 0);
    assert(py < pixel_ceil(y + side) <==> s - v >= 1);
}

fn widen(v: i32) -> (w: i128)
    ensures
        w == v,
{
    v as i128
}

fn times(a: i128, b: i128) -> (p: i128)
    requires
        -0x1_0000_0000 <= a <= 0x1_0000_0000,
        -0x1_0000_0000 <= b <= 0x1_0000_0000,
    ensures
        p == a * b,
        -0x1_0000_0000_0000_0000 <= p <= 0x1_0000_0000_0000_0000,
{
    assert(-0x1_0000_0000_0000_0000 <= a * b <= 0x1_0000_0000_0000_0000) by (nonlinear_arith)
        requires
            -0x1_0000_0000 <= a <= 0x1_0000_0000,
            -0x1_0000_0000 <= b <= 0x1_0000_0000,
    ;
    a * b
}

/// The edge function of the edge from `a` to `b` at the pixel `(px, py)`.
fn edge_at(a: (i32, i32), b: (i32, i32), px: usize, py: usize) -> (w: i128)
    requires
        px <= i32::MAX,
        py <= i32::MAX,
    ensures
        w == edge_value(a, b, px as int, py as int),
{
    let dx: i128 = widen(a.0) - widen(b.0);
    let dy: i128 = widen(a.1) - widen(b.1);
    let bias: i128 = if dy < 0 || (dy == 0 && dx > 0) { 0 } else { 1 };
    let base: i128 = times(dy, widen(a.0)) - times(dx, widen(a.1)) - bias;
    let slope: i128 = times(dx, py as i128) - times(dy, px as i128);
    base + 16 * slope
}

fn pixel_ceil_of(v: i32) -> (p: i64)
    ensures
        p == pixel_ceil(v as int),
        -0x800_0000 <= p <= 0x800_0000,
{
    let wide: i64 = v as i64;
    if wide >= 0 {
        (wide + 15) / 16
    } else {
        -((-wide) / 16)
    }
}

fn least(a: i32, b: i32, c: i32) -> (m: i32)
    ensures
        m == min3(a as int, b as int, c as int),
{
    if a <= b && a <= c {
        a
    } else if b <= c {
        b
    } else {
        c
    }
}

fn greatest(a: i32, b: i32, c: i32) -> (m: i32)
    ensures
        m == max3(a as int, b as int, c as int),
{
    if a >= b && a >= c {
        a
    } else if b >= c {
        b
    } else {
        c
    }
}

/// Clamps the pixel coordinate `p` to `0 ..= limit`.
fn clamp_to(p: i64, limit: usize) -> (c: usize)
    requires
        limit <= i32::MAX,
    ensures
        c == if p < 0 {
            0
        } else if p > limit {
            limit as int
        } else {
            p as int
        },
{
    if p < 0 {
        0
    } else if p > limit as i64 {
        limit
    } else {
        p as usize
    }
}

impl<'a> Bitmap<'a> {
    /// Fills the triangle `v0 v1 v2` with `color`. The vertices are in
    /// sixteenths of a pixel. Every pixel of the grid that the triangle
    /// covers is set to `color`, without blending; nothing else changes. A
    /// triangle whose vertices run the other way round covers no pixel.
    pub fn draw_triangle(&mut self, v0: (i32, i32), v1: (i32, i32), v2: (i32, i32), color: u32)
        requires
            old(self).wf(),
        ensures
            final(self).wf(),
            final(self)@.repaints(
                old(self)@,
                |px: int, py: int| triangle_pixel(old(self)@, v0, v1, v2, color, px, py),
            ),
    {
        let ghost before = self@;
        let width: usize = self.width();
        let height: usize = self.height();
        let min_x: usize = clamp_to(pixel_ceil_of(least(v0.0, v1.0, v2.0)), width);
        let max_x: usize = clamp_to(pixel_ceil_of(greatest(v0.0, v1.0, v2.0)), width);
        let min_y: usize = clamp_to(pixel_ceil_of(least(v0.1, v1.1, v2.1)), height);
        let max_y: usize = clamp_to(pixel_ceil_of(greatest(v0.1, v1.1, v2.1)), height);
        assert forall|px: int, py: int| before.contains(px, py) implies (in_bounding_box(
            v0,
            v1,
            v2,
            px,
            py,
        ) <==> min_x <= px < max_x && min_y <= py < max_y) by {}
        let mut y: usize = min_y;
        while y < max_y
            invariant
                min_y <= y,
                max_y <= height,
                max_x <= width,
                width == before.width,
                height == before.height,
                before.wf(),
                self.wf(),
                self@.same_shape(before),
                forall|px: int, py: int|
                    before.contains(px, py) ==> (in_bounding_box(v0, v1, v2, px, py) <==> min_x
                        <= px < max_x && min_y <= py < max_y),
                forall|k: int|
                    0 <= k < before.mem.len() && !before.is_pixel_index(k) ==> #[trigger]
                        self@.mem[k] == before.mem[k],
                forall|px: int, py: int|
                    before.contains(px, py) ==> #[trigger] self@.pixel(px, py) == (if py < y {
                        triangle_pixel(before, v0, v1, v2, color, px, py)
                    } else {
                        before.pixel(px, py)
                    }),
            decreases max_y - y,
        {
            let mut x: usize = min_x;
            while x < max_x
                invariant
                    min_x <= x,
                    min_y <= y < max_y,
                    max_y <= height,
                    max_x <= width,
                    width == before.width,
                    height == before.height,
                    before.wf(),
                    self.wf(),
                    self@.same_shape(before),
                    forall|px: int, py: int|
                        before.contains(px, py) ==> (in_bounding_box(v0, v1, v2, px, py) <==> min_x
                            <= px < max_x && min_y <= py < max_y),
                    forall|k: int|
                        0 <= k < before.mem.len() && !before.is_pixel_index(k) ==> #[trigger]
                            self@.mem[k] == before.mem[k],
                    forall|px: int, py: int|
                        before.contains(px, py) ==> #[trigger] self@.pixel(px, py) == (if py < y
                            || (py == y && px < x) {
                            triangle_pixel(before, v0, v1, v2, color, px, py)
                        } else {
                            before.pixel(px, py)
                        }),
                decreases max_x - x,
            {
                let w0: i128 = edge_at(v0, v1, x, y);
                let w1: i128 = edge_at(v1, v2, x, y);
                let w2: i128 = edge_at(v2, v0, x, y);
                if w0 >= 0 && w1 >= 0 && w2 >= 0 {
                    let ghost prev = self@;
                    self.write(x, y, color);
                    proof {
                        lemma_with_pixel(prev, x as int, y as int, color);
                    }
                }
                x += 1;
            }
            y += 1;
        }
    }
}

} // verus!
