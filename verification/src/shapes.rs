//! Lines and rectangles.

use crate::bitmap::{lemma_with_pixel, Bitmap, BitmapView};
use vstd::prelude::*;

verus! {

pub open spec fn abs_of(v: int) -> int {
    if v < 0 {
        -v
    } else {
        v
    }
}

/// The number of steps of the line from `(x0, y0)` to `(x1, y1)`: the
/// longer of its two extents.
pub open spec fn line_steps(x0: int, y0: int, x1: int, y1: int) -> int {
    if abs_of(x1 - x0) > abs_of(y1 - y0) {
        abs_of(x1 - x0)
    } else {
        abs_of(y1 - y0)
    }
}

/// The quotient of `n` by the positive `d`, rounded towards zero.
pub open spec fn div_toward_zero(n: int, d: int) -> int {
    if n >= 0 {
        n / d
    } else {
        -((-n) / d)
    }
}

/// One coordinate of the `k`-th point of a line of `steps` steps that
/// starts at `from` and spans `extent`: the exact position
/// `from + k * extent / steps` with its fraction dropped, that is, rounded
/// towards zero.
pub open spec fn line_coord(from: int, extent: int, steps: int, k: int) -> int {
    if steps == 0 {
        from
    } else {
        div_toward_zero(from * steps + k * extent, steps)
    }
}

/// The `k`-th point of the line from `(x0, y0)` to `(x1, y1)`.
pub open spec fn line_point(x0: int, y0: int, x1: int, y1: int, k: int) -> (int, int) {
    (
        line_coord(x0, x1 - x0, line_steps(x0, y0, x1, y1), k),
        line_coord(y0, y1 - y0, line_steps(x0, y0, x1, y1), k),
    )
}

/// Whether one of the first `n` points of the line is `(px, py)`.
pub open spec fn among_line_points(
    x0: int,
    y0: int,
    x1: int,
    y1: int,
    n: int,
    px: int,
    py: int,
) -> bool {
    exists|k: int| 0 <= k < n && #[trigger] line_point(x0, y0, x1, y1, k) == (px, py)
}

/// Whether the line from `(x0, y0)` to `(x1, y1)` passes through the pixel
/// `(px, py)`: whether it is one of the line's `steps + 1` points.
pub open spec fn on_line(x0: int, y0: int, x1: int, y1: int, px: int, py: int) -> bool {
    among_line_points(x0, y0, x1, y1, line_steps(x0, y0, x1, y1) + 1, px, py)
}

/// The colour of the pixel `(px, py)` after the line was drawn.
pub open spec fn line_pixel(
    dst: BitmapView,
    x0: int,
    y0: int,
    x1: int,
    y1: int,
    color: u32,
    px: int,
    py: int,
) -> u32 {
    if on_line(x0, y0, x1, y1, px, py) {
        color
    } else {
        dst.pixel(px, py)
    }
}

/// Whether `(px, py)` lies in the box with the corners `(x0, y0)` and
/// `(x1, y1)`, both included.
pub open spec fn in_box(x0: int, y0: int, x1: int, y1: int, px: int, py: int) -> bool {
    x0 <= px <= x1 && y0 <= py <= y1
}

/// Whether `(px, py)` lies on the outline of the box with the corners
/// `(x0, y0)` and `(x1, y1)`: on its top or bottom row between the two
/// sides, or on its left or right column between top and bottom. The
/// corners may come in any order.
pub open spec fn on_outline(x0: int, y0: int, x1: int, y1: int, px: int, py: int) -> bool {
    ||| (py == y0 || py == y1) && lesser(x0, x1) <= px <= greater(x0, x1)
    ||| (px == x0 || px == x1) && lesser(y0, y1) <= py <= greater(y0, y1)
}

/// The colour of the pixel `(px, py)` after the rectangle was drawn.
pub open spec fn rectangle_pixel(
    dst: BitmapView,
    x0: int,
    y0: int,
    x1: int,
    y1: int,
    filled: bool,
    color: u32,
    px: int,
    py: int,
) -> u32 {
    if filled && in_box(x0, y0, x1, y1, px, py) {
        color
    } else if !filled && on_outline(x0, y0, x1, y1, px, py) {
        color
    } else {
        dst.pixel(px, py)
    }
}

/// The coordinate `v` moved into `0 ..= limit - 1`.
pub open spec fn clamp_inside(v: int, limit: int) -> int {
    if v < 0 {
        0
    } else if v > limit - 1 {
        limit - 1
    } else {
        v
    }
}

pub open spec fn lesser(a: int, b: int) -> int {
    if a < b {
        a
    } else {
        b
    }
}

pub open spec fn greater(a: int, b: int) -> int {
    if a < b {
        b
    } else {
        a
    }
}

/// Whether the square drawn between the corners `(x0, y0)` and `(x1, y1)`
/// covers the pixel `(px, py)` of a grid of the given sides: the corners
/// are moved into the grid and put in order, and the square reaches from
/// the lesser corner up to, but not including, the greater one.
pub open spec fn square_covers(
    width: int,
    height: int,
    x0: int,
    y0: int,
    x1: int,
    y1: int,
    px: int,
    py: int,
) -> bool {
    &&& lesser(clamp_inside(x0, width), clamp_inside(x1, width)) <= px < greater(
        clamp_inside(x0, width),
        clamp_inside(x1, width),
    )
    &&& lesser(clamp_inside(y0, height), clamp_inside(y1, height)) <= py < greater(
        clamp_inside(y0, height),
        clamp_inside(y1, height),
    )
}

/// The colour of the pixel `(px, py)` after the square was drawn.
pub open spec fn square_pixel(
    dst: BitmapView,
    x0: int,
    y0: int,
    x1: int,
    y1: int,
    color: u32,
    px: int,
    py: int,
) -> u32 {
    if square_covers(dst.width as int, dst.height as int, x0, y0, x1, y1, px, py) {
        color
    } else {
        dst.pixel(px, py)
    }
}

/// A line from a point to itself is that one point.
pub proof fn lemma_point_line(x: int, y: int, px: int, py: int)
    ensures
        on_line(x, y, x, y, px, py) <==> (px == x && py == y),
{
    if px == x && py == y {
        assert(line_point(x, y, x, y, 0) == (px, py));
    }
}

/// A level line passes through exactly the pixels between its ends.
pub proof fn lemma_level_line(x0: int, x1: int, y: int, px: int, py: int)
    ensures
        on_line(x0, y, x1, y, px, py) <==> (py == y && lesser(x0, x1) <= px <= greater(x0, x1)),
{
    let steps = line_steps(x0, y, x1, y);
    assert(steps == abs_of(x1 - x0));
    if steps == 0 {
        lemma_point_line(x0, y, px, py);
    } else {
        assert forall|k: int| 0 <= k <= steps implies #[trigger] line_point(x0, y, x1, y, k) == (
            if x1 >= x0 {
                x0 + k
            } else {
                x0 - k
            },
            y,
        ) by {
            lemma_exact_step(x0, x1 - x0, steps, k);
            lemma_exact_step(y, 0, steps, k);
        }
        if py == y && lesser(x0, x1) <= px <= greater(x0, x1) {
            let k: int = abs_of(px - x0);
            assert(line_point(x0, y, x1, y, k) == (px, py));
        }
    }
}

/// An upright line passes through exactly the pixels between its ends.
pub proof fn lemma_upright_line(x: int, y0: int, y1: int, px: int, py: int)
    ensures
        on_line(x, y0, x, y1, px, py) <==> (px == x && lesser(y0, y1) <= py <= greater(y0, y1)),
{
    let steps = line_steps(x, y0, x, y1);
    assert(steps == abs_of(y1 - y0));
    if steps == 0 {
        lemma_point_line(x, y0, px, py);
    } else {
        assert forall|k: int| 0 <= k <= steps implies #[trigger] line_point(x, y0, x, y1, k) == (
            x,
            if y1 >= y0 {
                y0 + k
            } else {
                y0 - k
            },
        ) by {
            lemma_exact_step(y0, y1 - y0, steps, k);
            lemma_exact_step(x, 0, steps, k);
        }
        if px == x && lesser(y0, y1) <= py <= greater(y0, y1) {
            let k: int = abs_of(py - y0);
            assert(line_point(x, y0, x, y1, k) == (px, py));
        }
    }
}

/// Along an axis whose extent is the whole number of steps, or nothing,
/// the `k`-th coordinate is exact.
proof fn lemma_exact_step(from: int, extent: int, steps: int, k: int)
    requires
        steps > 0,
        extent == steps || extent == -steps || extent == 0,
        0 <= k <= steps,
    ensures
        line_coord(from, extent, steps, k) == from + (if extent == steps {
            k
        } else if extent == 0 {
            0
        } else {
            -k
        }),
{
    let q: int = from + (if extent == steps {
        k
    } else if extent == 0 {
        0
    } else {
        -k
    });
    let n: int = from * steps + k * extent;
    assert(n == q * steps) by (nonlinear_arith)
        requires
            n == from * steps + k * extent,
            extent == steps || extent == -steps || extent == 0,
            q == from + (if extent == steps {
                k
            } else if extent == 0 {
                0
            } else {
                -k
            }),
    ;
    if n >= 0 {
        assert(q >= 0) by (nonlinear_arith)
            requires
                n == q * steps,
                n >= 0,
                steps > 0,
        ;
        vstd::arithmetic::div_mod::lemma_fundamental_div_mod_converse(n, steps, q, 0);
    } else {
        assert(-n == (-q) * steps) by (nonlinear_arith)
            requires
                n == q * steps,
        ;
        vstd::arithmetic::div_mod::lemma_fundamental_div_mod_converse(-n, steps, -q, 0);
    }
}

fn wide_abs(v: i64) -> (a: i64)
    requires
        -0x1_0000_0000 <= v <= 0x1_0000_0000,
    ensures
        a == abs_of(v as int),
{
    if v < 0 {
        -v
    } else {
        v
    }
}

/// One coordinate of the `k`-th point of a line, see [`line_coord`].
fn coord_at(from: i32, extent: i64, steps: i64, k: i64) -> (c: i64)
    requires
        -0x1_0000_0000 <= extent <= 0x1_0000_0000,
        0 <= steps <= 0x1_0000_0000,
        abs_of(extent as int) <= steps,
        0 <= k <= steps,
    ensures
        c == line_coord(from as int, extent as int, steps as int, k as int),
{
    if steps == 0 {
        return from as i64;
    }
    let f: i128 = from as i128;
    let s: i128 = steps as i128;
    let e: i128 = extent as i128;
    let kk: i128 = k as i128;
    assert(-0x8000_0000 * 0x1_0000_0000 <= f * s <= 0x8000_0000 * 0x1_0000_0000)
        by (nonlinear_arith)
        requires
            -0x8000_0000 <= f <= 0x8000_0000,
            0 <= s <= 0x1_0000_0000,
    ;
    assert(-0x1_0000_0000 * 0x1_0000_0000 <= kk * e <= 0x1_0000_0000 * 0x1_0000_0000)
        by (nonlinear_arith)
        requires
            -0x1_0000_0000 <= e <= 0x1_0000_0000,
            0 <= kk <= 0x1_0000_0000,
    ;
    let n: i128 = f * s + kk * e;
    // the exact position lies between the line's ends
    assert(-(s * 0x1_8000_0000) <= n <= s * 0x1_8000_0000) by (nonlinear_arith)
        requires
            n == f * s + kk * e,
            -0x8000_0000 <= f <= 0x8000_0000,
            -s <= e <= s,
            0 <= kk <= s,
            0 < s <= 0x1_0000_0000,
    {
        assert(-(s * s) <= kk * e <= s * s);
        assert(s * s <= s * 0x1_0000_0000);
        assert(-(s * 0x8000_0000) <= f * s <= s * 0x8000_0000);
    }
    let q: i128 = n / s;
    proof {
        let m: int = if n >= 0 {
            n as int
        } else {
            -(n as int)
        };
        vstd::arithmetic::div_mod::lemma_div_pos_is_pos(m, s as int);
        assert(m / (s as int) <= 0x1_8000_0000) by {
            vstd::arithmetic::div_mod::lemma_div_is_ordered(m, s * 0x1_8000_0000, s as int);
            vstd::arithmetic::div_mod::lemma_div_multiples_vanish(0x1_8000_0000, s as int);
            vstd::arithmetic::mul::lemma_mul_is_commutative(s as int, 0x1_8000_0000);
        }
    }
    q as i64
}

impl<'a> Bitmap<'a> {
    /// Sets the pixel at the wide coordinates `(x, y)` if it lies in the grid.
    fn plot_wide(&mut self, x: i64, y: i64, color: u32)
        requires
            old(self).wf(),
        ensures
            final(self).wf(),
            final(self)@ == if old(self)@.contains(x as int, y as int) {
                old(self)@.with_pixel(x as int, y as int, color)
            } else {
                old(self)@
            },
    {
        if x >= 0 && y >= 0 && x < self.width() as i64 && y < self.height() as i64 {
            self.write(x as usize, y as usize, color);
        }
    }

    /// Draws the line from `(x0, y0)` to `(x1, y1)` by stepping along it
    /// once per pixel of its longer extent and setting the pixel that each
    /// step falls in, its fraction dropped. Points outside the grid are
    /// skipped.
    pub fn draw_line(&mut self, x0: i32, y0: i32, x1: i32, y1: i32, color: u32)
        requires
            old(self).wf(),
        ensures
            final(self).wf(),
            final(self)@.repaints(
                old(self)@,
                |px: int, py: int|
                    line_pixel(
                        old(self)@,
                        x0 as int,
                        y0 as int,
                        x1 as int,
                        y1 as int,
                        color,
                        px,
                        py,
                    ),
            ),
    {
        let ghost before = self@;
        let dx: i64 = x1 as i64 - x0 as i64;
        let dy: i64 = y1 as i64 - y0 as i64;
        let ax: i64 = wide_abs(dx);
        let ay: i64 = wide_abs(dy);
        let steps: i64 = if ax > ay { ax } else { ay };
        let mut k: i64 = 0;
        while k <= steps
            invariant
                0 <= k <= steps + 1,
                steps == line_steps(x0 as int, y0 as int, x1 as int, y1 as int),
                dx == x1 - x0,
                dy == y1 - y0,
                0 <= steps <= 0x1_0000_0000,
                before.wf(),
                self.wf(),
                self@.same_shape(before),
                forall|i: int|
                    0 <= i < before.mem.len() && !before.is_pixel_index(i) ==> #[trigger]
                        self@.mem[i] == before.mem[i],
                forall|px: int, py: int|
                    before.contains(px, py) ==> #[trigger] self@.pixel(px, py) == (
                    if among_line_points(
                        x0 as int,
                        y0 as int,
                        x1 as int,
                        y1 as int,
                        k as int,
                        px,
                        py,
                    ) {
                        color
                    } else {
                        before.pixel(px, py)
                    }),
            decreases steps + 1 - k,
        {
            let x: i64 = coord_at(x0, dx, steps, k);
            let y: i64 = coord_at(y0, dy, steps, k);
            let ghost prev = self@;
            self.plot_wide(x, y, color);
            proof {
                let point = line_point(x0 as int, y0 as int, x1 as int, y1 as int, k as int);
                assert(point == (x as int, y as int));
                if prev.contains(x as int, y as int) {
                    lemma_with_pixel(prev, x as int, y as int, color);
                }
                assert forall|px: int, py: int| before.contains(px, py) implies #[trigger]
                    self@.pixel(px, py) == (if among_line_points(
                    x0 as int,
                    y0 as int,
                    x1 as int,
                    y1 as int,
                    k + 1,
                    px,
                    py,
                ) {
                    color
                } else {
                    before.pixel(px, py)
                }) by {
                    let was = among_line_points(
                        x0 as int,
                        y0 as int,
                        x1 as int,
                        y1 as int,
                        k as int,
                        px,
                        py,
                    );
                    let now = among_line_points(
                        x0 as int,
                        y0 as int,
                        x1 as int,
                        y1 as int,
                        k + 1,
                        px,
                        py,
                    );
                    if was {
                        let j = choose|j: int|
                            0 <= j < k && #[trigger] line_point(
                                x0 as int,
                                y0 as int,
                                x1 as int,
                                y1 as int,
                                j,
                            ) == (px, py);
                        assert(0 <= j < k + 1);
                        assert(now);
                    }
                    if point == (px, py) {
                        assert(now);
                    }
                    if now && !was {
                        let j = choose|j: int|
                            0 <= j < k + 1 && #[trigger] line_point(
                                x0 as int,
                                y0 as int,
                                x1 as int,
                                y1 as int,
                                j,
                            ) == (px, py);
                        assert(j == k);
                    }
                }
            }
            k += 1;
        }
    }

    /// Sets every pixel of the grid inside the box with the corners
    /// `(x0, y0)` and `(x1, y1)`, both included.
    pub fn fill_box(&mut self, x0: i32, y0: i32, x1: i32, y1: i32, color: u32)
        requires
            old(self).wf(),
        ensures
            final(self).wf(),
            final(self)@.repaints(
                old(self)@,
                |px: int, py: int|
                    if in_box(x0 as int, y0 as int, x1 as int, y1 as int, px, py) {
                        color
                    } else {
                        old(self)@.pixel(px, py)
                    },
            ),
    {
        let ghost before = self@;
        let width: i64 = self.width() as i64;
        let height: i64 = self.height() as i64;
        let left: i64 = if x0 < 0 { 0 } else { x0 as i64 };
        let top: i64 = if y0 < 0 { 0 } else { y0 as i64 };
        let right: i64 = if x1 as i64 >= width { width } else { x1 as i64 + 1 };
        let bottom: i64 = if y1 as i64 >= height { height } else { y1 as i64 + 1 };
        if left >= right || top >= bottom {
            return ;
        }
        let mut y: usize = top as usize;
        while y < bottom as usize
            invariant
                0 <= left < right <= width,
                0 <= top <= y <= bottom <= height,
                width == before.width,
                height == before.height,
                before.wf(),
                self.wf(),
                self@.same_shape(before),
                forall|px: int, py: int|
                    before.contains(px, py) ==> (in_box(
                        x0 as int,
                        y0 as int,
                        x1 as int,
                        y1 as int,
                        px,
                        py,
                    ) <==> left <= px < right && top <= py < bottom),
                forall|i: int|
                    0 <= i < before.mem.len() && !before.is_pixel_index(i) ==> #[trigger]
                        self@.mem[i] == before.mem[i],
                forall|px: int, py: int|
                    before.contains(px, py) ==> #[trigger] self@.pixel(px, py) == (if left <= px
                        < right && top <= py < y {
                        color
                    } else {
                        before.pixel(px, py)
                    }),
            decreases bottom - y,
        {
            let mut x: usize = left as usize;
            while x < right as usize
                invariant
                    0 <= left <= x <= right <= width,
                    0 <= top <= y < bottom <= height,
                    width == before.width,
                    height == before.height,
                    before.wf(),
                    self.wf(),
                    self@.same_shape(before),
                    forall|i: int|
                        0 <= i < before.mem.len() && !before.is_pixel_index(i) ==> #[trigger]
                            self@.mem[i] == before.mem[i],
                    forall|px: int, py: int|
                        before.contains(px, py) ==> #[trigger] self@.pixel(px, py) == (if left
                            <= px < right && (top <= py < y || (py == y && px < x)) {
                            color
                        } else {
                            before.pixel(px, py)
                        }),
                decreases right - x,
            {
                let ghost prev = self@;
                self.write(x, y, color);
                proof {
                    lemma_with_pixel(prev, x as int, y as int, color);
                }
                x += 1;
            }
            y += 1;
        }
    }

    /// Draws the rectangle with the corners `(x0, y0)` and `(x1, y1)`:
    /// filled, every pixel from the first corner to the second, both
    /// included (none when a coordinate of the first exceeds that of the
    /// second); not filled, the four lines between its corners, which may
    /// come in any order.
    pub fn draw_rectangle(&mut self, x0: i32, y0: i32, x1: i32, y1: i32, filled: bool, color: u32)
        requires
            old(self).wf(),
        ensures
            final(self).wf(),
            final(self)@.repaints(
                old(self)@,
                |px: int, py: int|
                    rectangle_pixel(
                        old(self)@,
                        x0 as int,
                        y0 as int,
                        x1 as int,
                        y1 as int,
                        filled,
                        color,
                        px,
                        py,
                    ),
            ),
    {
        if filled {
            self.fill_box(x0, y0, x1, y1, color);
        } else {
            self.draw_line(x0, y0, x1, y0, color);
            self.draw_line(x0, y1, x1, y1, color);
            self.draw_line(x0, y0, x0, y1, color);
            self.draw_line(x1, y0, x1, y1, color);
            proof {
                assert forall|px: int, py: int|
                    on_outline(x0 as int, y0 as int, x1 as int, y1 as int, px, py) == (on_line(
                        x0 as int,
                        y0 as int,
                        x1 as int,
                        y0 as int,
                        px,
                        py,
                    ) || on_line(x0 as int, y1 as int, x1 as int, y1 as int, px, py) || on_line(
                        x0 as int,
                        y0 as int,
                        x0 as int,
                        y1 as int,
                        px,
                        py,
                    ) || on_line(x1 as int, y0 as int, x1 as int, y1 as int, px, py)) by {
                    lemma_level_line(x0 as int, x1 as int, y0 as int, px, py);
                    lemma_level_line(x0 as int, x1 as int, y1 as int, px, py);
                    lemma_upright_line(x0 as int, y0 as int, y1 as int, px, py);
                    lemma_upright_line(x1 as int, y0 as int, y1 as int, px, py);
                }
            }
        }
    }

    /// Fills the square between the corners `(x0, y0)` and `(x1, y1)` after
    /// moving them into the grid and putting them in order. The greater
    /// corner itself is left out.
    pub fn draw_square(&mut self, x0: i32, y0: i32, x1: i32, y1: i32, color: u32)
        requires
            old(self).wf(),
        ensures
            final(self).wf(),
            final(self)@.repaints(
                old(self)@,
                |px: int, py: int|
                    square_pixel(
                        old(self)@,
                        x0 as int,
                        y0 as int,
                        x1 as int,
                        y1 as int,
                        color,
                        px,
                        py,
                    ),
            ),
    {
        let width: i64 = self.width() as i64;
        let height: i64 = self.height() as i64;
        if width == 0 || height == 0 {
            return ;
        }
        let cx0: i64 = clamp_coord(x0, width);
        let cx1: i64 = clamp_coord(x1, width);
        let cy0: i64 = clamp_coord(y0, height);
        let cy1: i64 = clamp_coord(y1, height);
        let left: i64 = if cx0 < cx1 { cx0 } else { cx1 };
        let right: i64 = if cx0 < cx1 { cx1 } else { cx0 };
        let top: i64 = if cy0 < cy1 { cy0 } else { cy1 };
        let bottom: i64 = if cy0 < cy1 { cy1 } else { cy0 };
        self.fill_box(left as i32, top as i32, (right - 1) as i32, (bottom - 1) as i32, color);
    }
}

fn clamp_coord(v: i32, limit: i64) -> (c: i64)
    requires
        0 < limit <= i32::MAX,
    ensures
        c == clamp_inside(v as int, limit as int),
        0 <= c < limit,
{
    if v < 0 {
        0
    } else if v as i64 > limit - 1 {
        limit - 1
    } else {
        v as i64
    }
}

} // verus!
