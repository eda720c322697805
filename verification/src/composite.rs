//! The draw calls that copy one pixel buffer onto another: unscaled,
//! scaled and mirrored, recoloured, and lit. All of them place the source
//! by one run per axis and write what a [`Shader`] makes of each visible
//! source pixel; they share one loop.

use crate::bitmap::{lemma_repaint_unique, lemma_with_pixel, Bitmap, BitmapView};
use crate::color::{is_visible, visible};
use crate::paint::{Light, LightView, Paint, Shader, FLOOR_GATED, FLOOR_PLAIN};
use crate::span::{
    direct_run, direct_span, lemma_direct_span, lemma_unit_scale_span, scaled_run, scaled_span,
    Span, SpanView, POSITION_LIMIT, SCALE_MIN,
};
use vstd::prelude::*;

verus! {

/// The colour that the destination pixel `(px, py)` holds after `src` was
/// drawn over `dst` along the runs `rx` and `ry`: where both runs cover the
/// pixel and the source pixel they sample is visible, what `paint` makes of
/// that source pixel; everywhere else the colour that was there.
pub open spec fn composite_pixel(
    src: BitmapView,
    dst: BitmapView,
    rx: SpanView,
    ry: SpanView,
    paint: Paint,
    px: int,
    py: int,
) -> u32 {
    if rx.covers(px) && ry.covers(py) && is_visible(src.pixel(rx.source(px), ry.source(py))) {
        paint.shade(src.pixel(rx.source(px), ry.source(py)), dst.pixel(px, py), px, py)
    } else {
        dst.pixel(px, py)
    }
}

/// [`composite_pixel`] as a paint for the whole grid.
pub open spec fn composited(
    src: BitmapView,
    dst: BitmapView,
    rx: SpanView,
    ry: SpanView,
    paint: Paint,
) -> spec_fn(int, int) -> u32 {
    |px: int, py: int| composite_pixel(src, dst, rx, ry, paint, px, py)
}

/// The colour of the destination pixel `(px, py)` after an unscaled copy of
/// `src` was placed at `(x, y)`: the source pixel `(px - x, py - y)` where
/// there is one and it is visible, and the old colour elsewhere.
pub open spec fn blit_pixel(src: BitmapView, dst: BitmapView, x: int, y: int, px: int, py: int)
    -> u32 {
    if src.contains(px - x, py - y) && is_visible(src.pixel(px - x, py - y)) {
        src.pixel(px - x, py - y)
    } else {
        dst.pixel(px, py)
    }
}

/// The colour of the destination pixel `(px, py)` after `src` was drawn
/// unscaled at `(x, y)` with the given paint: where the source has a
/// visible pixel at `(px - x, py - y)`, what the paint makes of it, and the
/// old colour elsewhere.
pub open spec fn direct_pixel(
    src: BitmapView,
    dst: BitmapView,
    x: int,
    y: int,
    paint: Paint,
    px: int,
    py: int,
) -> u32 {
    if src.contains(px - x, py - y) && is_visible(src.pixel(px - x, py - y)) {
        paint.shade(src.pixel(px - x, py - y), dst.pixel(px, py), px, py)
    } else {
        dst.pixel(px, py)
    }
}

/// [`direct_pixel`] as a paint for the whole grid.
pub open spec fn direct_paint(src: BitmapView, dst: BitmapView, x: int, y: int, paint: Paint)
    -> spec_fn(int, int) -> u32 {
    |px: int, py: int| direct_pixel(src, dst, x, y, paint, px, py)
}

/// Whether a pair of 16.16 scale factors is too close to zero to draw.
pub open spec fn scale_vanishes(scale_x: int, scale_y: int) -> bool {
    -(SCALE_MIN as int) < scale_x < SCALE_MIN || -(SCALE_MIN as int) < scale_y < SCALE_MIN
}

/// The colour of the destination pixel `(px, py)` after `src`, scaled by
/// the 16.16 factors `scale_x` and `scale_y`, was drawn at `(x, y)` with
/// the given paint.
pub open spec fn scaled_pixel(
    src: BitmapView,
    dst: BitmapView,
    x: int,
    y: int,
    scale_x: int,
    scale_y: int,
    paint: Paint,
    px: int,
    py: int,
) -> u32 {
    if scale_vanishes(scale_x, scale_y) {
        dst.pixel(px, py)
    } else {
        composite_pixel(
            src,
            dst,
            scaled_span(x, src.width as int, dst.width as int, scale_x),
            scaled_span(y, src.height as int, dst.height as int, scale_y),
            paint,
            px,
            py,
        )
    }
}

/// [`scaled_pixel`] as a paint for the whole grid.
pub open spec fn scaled_paint(
    src: BitmapView,
    dst: BitmapView,
    x: int,
    y: int,
    scale_x: int,
    scale_y: int,
    paint: Paint,
) -> spec_fn(int, int) -> u32 {
    |px: int, py: int| scaled_pixel(src, dst, x, y, scale_x, scale_y, paint, px, py)
}

/// The light under which a background is drawn: table values quartered, the
/// low floor, no gate.
pub open spec fn background_light(
    low: Seq<u32>,
    high: Seq<u32>,
    origin: (i32, i32),
    color_mask: u32,
) -> LightView {
    LightView {
        low,
        high,
        origin_x: origin.0 as int,
        origin_y: origin.1 as int,
        mask: color_mask,
        floor: FLOOR_GATED as int,
        quartered: true,
        gate: None,
    }
}

/// The light under which a tile is drawn. A gated tile has the low floor
/// and is faded into the destination by the key `color_mask & visible_mask`;
/// any other tile has the high floor and is written as lit.
pub open spec fn tile_light(
    low: Seq<u32>,
    high: Seq<u32>,
    origin: (i32, i32),
    is_colored: bool,
    visible_mask: u32,
    color_mask: u32,
) -> LightView {
    LightView {
        low,
        high,
        origin_x: origin.0 as int,
        origin_y: origin.1 as int,
        mask: color_mask,
        floor: if is_colored {
            FLOOR_GATED as int
        } else {
            FLOOR_PLAIN as int
        },
        quartered: false,
        gate: if is_colored {
            Some(color_mask & visible_mask)
        } else {
            None
        },
    }
}

/// The colour of the destination pixel `(px, py)` after the tile `src` was
/// drawn at `(x, y)` under `light`.
pub open spec fn tile_pixel(
    src: BitmapView,
    dst: BitmapView,
    x: int,
    y: int,
    light: LightView,
    px: int,
    py: int,
) -> u32 {
    if src.contains(px - x, py - y) && is_visible(src.pixel(px - x, py - y)) {
        light.shade(src.pixel(px - x, py - y), dst.pixel(px, py), px, py)
    } else {
        dst.pixel(px, py)
    }
}

/// Along unscaled runs, compositing reads the source pixel straight under
/// each destination pixel.
pub proof fn lemma_direct_composite(
    src: BitmapView,
    dst: BitmapView,
    x: int,
    y: int,
    paint: Paint,
    px: int,
    py: int,
)
    requires
        dst.contains(px, py),
    ensures
        composite_pixel(
            src,
            dst,
            direct_span(x, src.width as int, dst.width as int),
            direct_span(y, src.height as int, dst.height as int),
            paint,
            px,
            py,
        ) == if src.contains(px - x, py - y) && is_visible(src.pixel(px - x, py - y)) {
            paint.shade(src.pixel(px - x, py - y), dst.pixel(px, py), px, py)
        } else {
            dst.pixel(px, py)
        },
{
    let rx = direct_span(x, src.width as int, dst.width as int);
    let ry = direct_span(y, src.height as int, dst.height as int);
    lemma_direct_span(x, src.width as int, dst.width as int);
    lemma_direct_span(y, src.height as int, dst.height as int);
    assert(rx.covers(px) <==> 0 <= px - x < src.width);
    assert(ry.covers(py) <==> 0 <= py - y < src.height);
    if rx.covers(px) && ry.covers(py) {
        assert(rx.source(px) == px - x);
        assert(ry.source(py) == py - y);
    }
}

/// Drawing at scale 1 along both axes writes, pixel for pixel, what an
/// unscaled copy writes, for every position and every destination,
/// provided that each side of the source divides 65536. (For any other
/// side the sampling step falls short of one source pixel per destination
/// pixel.)
pub proof fn lemma_unit_scale_pixel(
    src: BitmapView,
    dst: BitmapView,
    x: int,
    y: int,
    px: int,
    py: int,
)
    requires
        dst.contains(px, py),
        src.width > 0 ==> 65536int % (src.width as int) == 0,
        src.height > 0 ==> 65536int % (src.height as int) == 0,
    ensures
        scaled_pixel(src, dst, x, y, 65536, 65536, Paint::Copy, px, py) == blit_pixel(
            src,
            dst,
            x,
            y,
            px,
            py,
        ),
{
    lemma_unit_scale_span(x, src.width as int, dst.width as int);
    lemma_unit_scale_span(y, src.height as int, dst.height as int);
    lemma_direct_composite(src, dst, x, y, Paint::Copy, px, py);
}

/// The buffer that a draw at scale 1 leaves is the buffer that an unscaled
/// draw at the same place leaves, provided that each side of the source
/// divides 65536.
pub proof fn lemma_unit_scale_is_unscaled(
    src: BitmapView,
    before: BitmapView,
    scaled: BitmapView,
    unscaled: BitmapView,
    x: int,
    y: int,
)
    requires
        before.wf(),
        src.width > 0 ==> 65536int % (src.width as int) == 0,
        src.height > 0 ==> 65536int % (src.height as int) == 0,
        scaled.repaints(
            before,
            |px: int, py: int| scaled_pixel(src, before, x, y, 65536, 65536, Paint::Copy, px, py),
        ),
        unscaled.repaints(before, |px: int, py: int| blit_pixel(src, before, x, y, px, py)),
    ensures
        scaled == unscaled,
{
    let paint_scaled = |px: int, py: int|
        scaled_pixel(src, before, x, y, 65536, 65536, Paint::Copy, px, py);
    let paint_unscaled = |px: int, py: int| blit_pixel(src, before, x, y, px, py);
    assert forall|px: int, py: int| before.contains(px, py) implies paint_scaled(px, py)
        == paint_unscaled(px, py) by {
        lemma_unit_scale_pixel(src, before, x, y, px, py);
    }
    lemma_repaint_unique(scaled, unscaled, before, paint_scaled, paint_unscaled);
}

/// Draws `src` over `target` along the runs `rx` and `ry`, writing what
/// `shader` makes of each visible source pixel.
pub fn composite(src: &Bitmap, target: &mut Bitmap, rx: &Span, ry: &Span, shader: &Shader)
    requires
        src.wf(),
        old(target).wf(),
        rx@.fits(src@.width as int, old(target)@.width as int),
        ry@.fits(src@.height as int, old(target)@.height as int),
        shader.wf(),
    ensures
        final(target).wf(),
        final(target)@.repaints(
            old(target)@,
            composited(src@, old(target)@, rx@, ry@, shader@),
        ),
{
    let ghost before = target@;
    let sw: usize = src.width();
    let sh: usize = src.height();
    let tw: usize = target.width();
    let th: usize = target.height();
    let mut j: usize = 0;
    while j < ry.len
        invariant
            j <= ry.len,
            src.wf(),
            target.wf(),
            before.wf(),
            shader.wf(),
            sw == src@.width,
            sh == src@.height,
            tw == before.width,
            th == before.height,
            rx@.fits(sw as int, tw as int),
            ry@.fits(sh as int, th as int),
            target@.same_shape(before),
            forall|k: int|
                0 <= k < before.mem.len() && !before.is_pixel_index(k) ==> #[trigger]
                    target@.mem[k] == before.mem[k],
            forall|px: int, py: int|
                before.contains(px, py) ==> #[trigger] target@.pixel(px, py) == (if py < ry.dst
                    + j {
                    composite_pixel(src@, before, rx@, ry@, shader@, px, py)
                } else {
                    before.pixel(px, py)
                }),
        decreases ry.len - j,
    {
        let sy: usize = ry.source_at(j, sh, th);
        let py: usize = ry.dst + j;
        let mut i: usize = 0;
        while i < rx.len
            invariant
                i <= rx.len,
                j < ry.len,
                py == ry.dst + j,
                sy == ry@.source(py as int),
                sy < sh,
                src.wf(),
                target.wf(),
                before.wf(),
                shader.wf(),
                sw == src@.width,
                sh == src@.height,
                tw == before.width,
                th == before.height,
                rx@.fits(sw as int, tw as int),
                ry@.fits(sh as int, th as int),
                target@.same_shape(before),
                forall|k: int|
                    0 <= k < before.mem.len() && !before.is_pixel_index(k) ==> #[trigger]
                        target@.mem[k] == before.mem[k],
                forall|qx: int, qy: int|
                    before.contains(qx, qy) ==> #[trigger] target@.pixel(qx, qy) == (if qy < py
                        || (qy == py && qx < rx.dst + i) {
                        composite_pixel(src@, before, rx@, ry@, shader@, qx, qy)
                    } else {
                        before.pixel(qx, qy)
                    }),
            decreases rx.len - i,
        {
            let sx: usize = rx.source_at(i, sw, tw);
            let px: usize = rx.dst + i;
            let c: u32 = src.read(sx, sy);
            assert(rx@.covers(px as int) && ry@.covers(py as int));
            if visible(c) {
                let under: u32 = target.read(px, py);
                let out: u32 = shader.shade(c, under, px, py);
                let ghost prev = target@;
                target.write(px, py, out);
                proof {
                    lemma_with_pixel(prev, px as int, py as int, out);
                }
            }
            i += 1;
        }
        j += 1;
    }
}

impl<'a> Bitmap<'a> {
    /// Copies the visible pixels of `self` onto `target` with the top-left
    /// corner of `self` at `(x, y)`. Whatever falls outside `target` is
    /// left out; nothing but pixels of `target`'s grid is written.
    pub fn draw_on(&self, target: &mut Bitmap, x: i32, y: i32)
        requires
            self.wf(),
            old(target).wf(),
        ensures
            final(target).wf(),
            final(target)@.repaints(
                old(target)@,
                |px: int, py: int| blit_pixel(self@, old(target)@, x as int, y as int, px, py),
            ),
            forall|i: int|
                0 <= i < old(target)@.mem.len() && final(target)@.mem[i] != old(target)@.mem[i]
                    ==> old(target)@.is_pixel_index(i),
    {
        let rx = direct_run(x as i64, self.width(), target.width());
        let ry = direct_run(y as i64, self.height(), target.height());
        let ghost before = target@;
        composite(self, target, &rx, &ry, &Shader::Copy);
        proof {
            assert forall|px: int, py: int| before.contains(px, py) implies #[trigger]
                target@.pixel(px, py) == blit_pixel(self@, before, x as int, y as int, px, py) by {
                lemma_direct_composite(self@, before, x as int, y as int, Paint::Copy, px, py);
            }
        }
    }

    /// Draws `self` onto `target` at `(x, y)`, resampled to the nearest
    /// source pixel by the 16.16 scale factors `scale_x` and `scale_y`. A
    /// negative factor mirrors along its axis. Nothing is drawn when either
    /// factor is closer to zero than one thousandth.
    pub fn draw_on_scaled(&self, target: &mut Bitmap, x: i32, y: i32, scale_x: i32, scale_y: i32)
        requires
            self.wf(),
            old(target).wf(),
        ensures
            final(target).wf(),
            final(target)@.repaints(
                old(target)@,
                |px: int, py: int|
                    scaled_pixel(
                        self@,
                        old(target)@,
                        x as int,
                        y as int,
                        scale_x as int,
                        scale_y as int,
                        Paint::Copy,
                        px,
                        py,
                    ),
            ),
    {
        self.draw_scaled_with(target, x as i64, y as i64, scale_x, scale_y, &Shader::Copy);
    }

    /// Draws `self` scaled like [`Bitmap::draw_on_scaled`], with the two
    /// skin tones of player art replaced by the colours of the palette
    /// `color_index` (0 unmasked, 1 red, 2 green, 3 blue). The pixels
    /// written have alpha 0.
    pub fn draw_on_scaled_player(
        &self,
        target: &mut Bitmap,
        x: i32,
        y: i32,
        scale_x: i32,
        scale_y: i32,
        color_index: u32,
    )
        requires
            self.wf(),
            old(target).wf(),
            color_index < 4,
        ensures
            final(target).wf(),
            final(target)@.repaints(
                old(target)@,
                |px: int, py: int|
                    scaled_pixel(
                        self@,
                        old(target)@,
                        x as int,
                        y as int,
                        scale_x as int,
                        scale_y as int,
                        Paint::Recolor { index: color_index as int },
                        px,
                        py,
                    ),
            ),
    {
        self.draw_scaled_with(
            target,
            x as i64,
            y as i64,
            scale_x,
            scale_y,
            &Shader::Recolor { index: color_index },
        );
    }

    /// Draws `self` scaled like [`Bitmap::draw_on_scaled`], each pixel lit
    /// by the light whose tables lie over `target` with their corner at
    /// `aura_transl`, tinted by `color_mask`. The pixels written have
    /// alpha 0.
    pub fn draw_background(
        &self,
        target: &mut Bitmap,
        x: i32,
        y: i32,
        scale_x: i32,
        scale_y: i32,
        color_mask: u32,
        brightness_low: &[u32],
        brightness: &[u32],
        aura_transl: (i32, i32),
    )
        requires
            self.wf(),
            old(target).wf(),
        ensures
            final(target).wf(),
            final(target)@.repaints(
                old(target)@,
                |px: int, py: int|
                    scaled_pixel(
                        self@,
                        old(target)@,
                        x as int,
                        y as int,
                        scale_x as int,
                        scale_y as int,
                        Paint::Light(
                            background_light(brightness_low@, brightness@, aura_transl, color_mask),
                        ),
                        px,
                        py,
                    ),
            ),
    {
        let light = Light {
            low: brightness_low,
            high: brightness,
            origin_x: aura_transl.0,
            origin_y: aura_transl.1,
            mask: color_mask,
            floor: FLOOR_GATED,
            quartered: true,
            gate: None,
        };
        self.draw_scaled_with(target, x as i64, y as i64, scale_x, scale_y, &Shader::Light(light));
    }

    /// Draws the tile `self` onto `target` at `(x, y)`, each pixel lit by
    /// the light whose tables lie over `target` with their corner at
    /// `aura_transl`, tinted by `color_mask`. A gated tile (`is_colored`)
    /// is faded into what lies under it, channel by channel, by the key
    /// `color_mask & visible_mask`; any other tile is written as lit.
    pub fn draw_tile(
        &self,
        target: &mut Bitmap,
        x: i32,
        y: i32,
        is_colored: bool,
        visible_mask: u32,
        color_mask: u32,
        brightness_low: &[u32],
        brightness: &[u32],
        aura_transl: (i32, i32),
    )
        requires
            self.wf(),
            old(target).wf(),
        ensures
            final(target).wf(),
            final(target)@.repaints(
                old(target)@,
                |px: int, py: int|
                    tile_pixel(
                        self@,
                        old(target)@,
                        x as int,
                        y as int,
                        tile_light(
                            brightness_low@,
                            brightness@,
                            aura_transl,
                            is_colored,
                            visible_mask,
                            color_mask,
                        ),
                        px,
                        py,
                    ),
            ),
    {
        let light = Light {
            low: brightness_low,
            high: brightness,
            origin_x: aura_transl.0,
            origin_y: aura_transl.1,
            mask: color_mask,
            floor: if is_colored {
                FLOOR_GATED
            } else {
                FLOOR_PLAIN
            },
            quartered: false,
            gate: if is_colored {
                Some(color_mask & visible_mask)
            } else {
                None
            },
        };
        let rx = direct_run(x as i64, self.width(), target.width());
        let ry = direct_run(y as i64, self.height(), target.height());
        let ghost before = target@;
        let shader = Shader::Light(light);
        composite(self, target, &rx, &ry, &shader);
        proof {
            assert forall|px: int, py: int| before.contains(px, py) implies #[trigger]
                target@.pixel(px, py) == tile_pixel(
                self@,
                before,
                x as int,
                y as int,
                tile_light(
                    brightness_low@,
                    brightness@,
                    aura_transl,
                    is_colored,
                    visible_mask,
                    color_mask,
                ),
                px,
                py,
            ) by {
                lemma_direct_composite(self@, before, x as int, y as int, shader@, px, py);
            }
        }
    }

    /// Draws `self` unscaled onto `target` at `(x, y)` with the given
    /// shader.
    pub fn draw_direct(&self, target: &mut Bitmap, x: i64, y: i64, shader: &Shader)
        requires
            self.wf(),
            old(target).wf(),
            shader.wf(),
            -POSITION_LIMIT <= x <= POSITION_LIMIT,
            -POSITION_LIMIT <= y <= POSITION_LIMIT,
        ensures
            final(target).wf(),
            final(target)@.repaints(
                old(target)@,
                |px: int, py: int|
                    direct_pixel(self@, old(target)@, x as int, y as int, shader@, px, py),
            ),
    {
        let rx = direct_run(x, self.width(), target.width());
        let ry = direct_run(y, self.height(), target.height());
        let ghost before = target@;
        composite(self, target, &rx, &ry, shader);
        proof {
            assert forall|px: int, py: int| before.contains(px, py) implies #[trigger]
                target@.pixel(px, py) == direct_pixel(
                self@,
                before,
                x as int,
                y as int,
                shader@,
                px,
                py,
            ) by {
                lemma_direct_composite(self@, before, x as int, y as int, shader@, px, py);
            }
        }
    }

    /// Draws `self` scaled onto `target` with the given shader.
    pub fn draw_scaled_with(
        &self,
        target: &mut Bitmap,
        x: i64,
        y: i64,
        scale_x: i32,
        scale_y: i32,
        shader: &Shader,
    )
        requires
            self.wf(),
            old(target).wf(),
            shader.wf(),
            -POSITION_LIMIT <= x <= POSITION_LIMIT,
            -POSITION_LIMIT <= y <= POSITION_LIMIT,
        ensures
            final(target).wf(),
            final(target)@.repaints(
                old(target)@,
                |px: int, py: int|
                    scaled_pixel(
                        self@,
                        old(target)@,
                        x as int,
                        y as int,
                        scale_x as int,
                        scale_y as int,
                        shader@,
                        px,
                        py,
                    ),
            ),
    {
        if (-SCALE_MIN < scale_x && scale_x < SCALE_MIN) || (-SCALE_MIN < scale_y && scale_y
            < SCALE_MIN) {
            return ;
        }
        let rx = scaled_run(x, self.width(), target.width(), scale_x);
        let ry = scaled_run(y, self.height(), target.height(), scale_y);
        composite(self, target, &rx, &ry, shader);
    }
}

} // verus!
