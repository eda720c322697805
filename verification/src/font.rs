//! Text: a table of glyphs, a table that says which glyph stands for which
//! character, and the drawing of a string with a one-pixel drop shadow.

use crate::bitmap::{lemma_repainted, lemma_with_pixel, Bitmap, BitmapView};
use vstd::prelude::*;
use vstd::string::StrSliceExecFns;

verus! {

/// The number of slots of a font's translation table.
pub const SLOTS: usize = 256;

/// The slot of the micro sign.
pub const SLOT_MICRO: usize = 254;

/// The slot of every character that has no glyph of its own.
pub const SLOT_UNSUPPORTED: usize = 255;

/// The distance from one character of a string to the next.
pub const PITCH: i32 = 6;

/// A glyph: rows of dots, each dot set or not.
pub type Glyph = Vec<Vec<bool>>;

/// A font: the glyphs, and for each slot the glyph that stands in it.
#[derive(Debug)]
pub struct Font {
    pub translation: Vec<usize>,
    pub data: Vec<Glyph>,
}

/// The dots of a glyph.
pub open spec fn glyph_dots(glyph: Glyph) -> Seq<Seq<bool>> {
    Seq::new(glyph@.len(), |v: int| glyph@[v]@)
}

/// Whether a glyph has a dot at column `u` of row `v`.
pub open spec fn has_dot(dots: Seq<Seq<bool>>, u: int, v: int) -> bool {
    0 <= v < dots.len() && 0 <= u < dots[v].len() && dots[v][u]
}

/// The slot of the character `c`: for an ASCII character its code, that of
/// the small letter for a capital; for the micro sign and the Greek small
/// mu the slot of the micro sign; for every other character the slot of
/// the unsupported character.
pub open spec fn slot_of(c: char) -> int {
    if (c as u32) < 128 {
        if 65 <= c as u32 <= 90 {
            c as u32 + 32
        } else {
            c as u32 as int
        }
    } else if c == '\u{00b5}' || c == '\u{03bc}' {
        SLOT_MICRO as int
    } else {
        SLOT_UNSUPPORTED as int
    }
}

/// The colour of the pixel `(px, py)` after a glyph was drawn at `(x, y)`:
/// `color` where the glyph has a dot, 0 where it has none but has one up
/// and to the left (the shadow), and the old colour elsewhere.
pub open spec fn glyph_pixel(
    dst: BitmapView,
    dots: Seq<Seq<bool>>,
    x: int,
    y: int,
    color: u32,
    px: int,
    py: int,
) -> u32 {
    if has_dot(dots, px - x, py - y) {
        color
    } else if has_dot(dots, px - x - 1, py - y - 1) {
        0
    } else {
        dst.pixel(px, py)
    }
}

/// [`glyph_pixel`] as a paint for the whole grid.
pub open spec fn glyph_paint(dst: BitmapView, dots: Seq<Seq<bool>>, x: int, y: int, color: u32)
    -> spec_fn(int, int) -> u32 {
    |px: int, py: int| glyph_pixel(dst, dots, x, y, color, px, py)
}

impl Font {
    /// Every slot of the translation table names a glyph of the font.
    pub open spec fn wf(&self) -> bool {
        &&& self.translation@.len() == SLOTS
        &&& forall|i: int|
            0 <= i < SLOTS ==> (#[trigger] self.translation@[i]) < self.data@.len()
    }

    /// The dots of the glyph that stands for the character `c`.
    pub open spec fn dots_for(&self, c: char) -> Seq<Seq<bool>> {
        glyph_dots(self.data@[self.translation@[slot_of(c)] as int])
    }

    /// The buffer after the first `n` characters of `text` were drawn on
    /// `dst`, the first at `(x, y)` and each further one [`PITCH`] pixels
    /// to the right of the one before.
    pub open spec fn text_drawn(
        &self,
        dst: BitmapView,
        text: Seq<char>,
        n: int,
        x: int,
        y: int,
        color: u32,
    ) -> BitmapView
        decreases n,
    {
        if n <= 0 {
            dst
        } else {
            self.text_drawn(dst, text, n - 1, x, y, color).repainted(
                glyph_paint(
                    self.text_drawn(dst, text, n - 1, x, y, color),
                    self.dots_for(text[n - 1]),
                    x + (n - 1) * PITCH,
                    y,
                    color,
                ),
            )
        }
    }

    /// A font from its translation table and its glyphs, or nothing if the
    /// table does not have [`SLOTS`] entries or names a glyph that is not
    /// there.
    pub fn new(translation: Vec<usize>, data: Vec<Glyph>) -> (font: Option<Font>)
        ensures
            match font {
                Some(f) => f.wf() && f.translation == translation && f.data == data,
                None => !(Font { translation, data }).wf(),
            },
    {
        if translation.len() != SLOTS {
            return None;
        }
        let mut i: usize = 0;
        while i < SLOTS
            invariant
                i <= SLOTS,
                translation@.len() == SLOTS,
                forall|k: int| 0 <= k < i ==> (#[trigger] translation@[k]) < data@.len(),
            decreases SLOTS - i,
        {
            if translation[i] >= data.len() {
                return None;
            }
            i += 1;
        }
        Some(Font { translation, data })
    }
}

/// The slot of a character, see [`slot_of`].
pub fn slot(c: char) -> (i: usize)
    ensures
        i == slot_of(c),
        i < SLOTS,
{
    let code: u32 = c as u32;
    if code < 128 {
        if code >= 65 && code <= 90 {
            (code + 32) as usize
        } else {
            code as usize
        }
    } else if c == '\u{00b5}' || c == '\u{03bc}' {
        SLOT_MICRO
    } else {
        SLOT_UNSUPPORTED
    }
}

impl<'a> Bitmap<'a> {
    /// Sets the pixel at `(x, y)` if it lies in the grid.
    fn plot_far(&mut self, x: i128, y: i128, color: u32)
        requires
            old(self).wf(),
        ensures
            final(self).wf(),
            final(self)@ == if old(self)@.contains(x as int, y as int) {
                old(self)@.with_pixel(x as int, y as int, color)
            } else {
                old(self)@
            },
    {
        if x >= 0 && y >= 0 && x < self.width() as i128 && y < self.height() as i128 {
            self.write(x as usize, y as usize, color);
        }
    }

    /// Draws a glyph with its top-left corner at `(x, y)`: each dot in
    /// `color`, and one pixel down and to the right of each dot its shadow
    /// in the colour 0, where no dot covers it.
    pub fn draw_glyph(&mut self, glyph: &Glyph, x: i128, y: i128, color: u32)
        requires
            old(self).wf(),
            -0x1000_0000_0000_0000_0000 <= x <= 0x1000_0000_0000_0000_0000,
            -0x1000_0000_0000_0000_0000 <= y <= 0x1000_0000_0000_0000_0000,
        ensures
            final(self).wf(),
            final(self)@ == old(self)@.repainted(
                glyph_paint(old(self)@, glyph_dots(*glyph), x as int, y as int, color),
            ),
    {
        let ghost before = self@;
        let ghost dots = glyph_dots(*glyph);
        let rows: usize = glyph.len();
        let mut v: usize = 0;
        while v < rows
            invariant
                v <= rows,
                rows == glyph@.len(),
                dots == glyph_dots(*glyph),
                -0x1000_0000_0000_0000_0000 <= x <= 0x1000_0000_0000_0000_0000,
                -0x1000_0000_0000_0000_0000 <= y <= 0x1000_0000_0000_0000_0000,
                before.wf(),
                self.wf(),
                self@.same_shape(before),
                forall|k: int|
                    0 <= k < before.mem.len() && !before.is_pixel_index(k) ==> #[trigger]
                        self@.mem[k] == before.mem[k],
                forall|px: int, py: int|
                    before.contains(px, py) ==> #[trigger] self@.pixel(px, py) == (if has_dot(
                        dots,
                        px - x,
                        py - y,
                    ) && py - y < v {
                        color
                    } else if has_dot(dots, px - x - 1, py - y - 1) && py - y - 1 < v {
                        0
                    } else {
                        before.pixel(px, py)
                    }),
            decreases rows - v,
        {
            let row: &Vec<bool> = &glyph[v];
            let cols: usize = row.len();
            assert(dots[v as int] == row@);
            let mut u: usize = 0;
            while u < cols
                invariant
                    u <= cols,
                    v < rows,
                    rows == glyph@.len(),
                    cols == row@.len(),
                    dots == glyph_dots(*glyph),
                    dots[v as int] == row@,
                    -0x1000_0000_0000_0000_0000 <= x <= 0x1000_0000_0000_0000_0000,
                    -0x1000_0000_0000_0000_0000 <= y <= 0x1000_0000_0000_0000_0000,
                    before.wf(),
                    self.wf(),
                    self@.same_shape(before),
                    forall|k: int|
                        0 <= k < before.mem.len() && !before.is_pixel_index(k) ==> #[trigger]
                            self@.mem[k] == before.mem[k],
                    forall|px: int, py: int|
                        before.contains(px, py) ==> #[trigger] self@.pixel(px, py) == (
                        if has_dot(dots, px - x, py - y) && (py - y < v || (py - y == v && px - x
                            < u)) {
                            color
                        } else if has_dot(dots, px - x - 1, py - y - 1) && (py - y - 1 < v || (py
                            - y - 1 == v && px - x - 1 < u)) {
                            0
                        } else {
                            before.pixel(px, py)
                        }),
                decreases cols - u,
            {
                if row[u] {
                    let ghost prev = self@;
                    let px: i128 = x + u as i128;
                    let py: i128 = y + v as i128;
                    self.plot_far(px, py, color);
                    let ghost mid = self@;
                    self.plot_far(px + 1, py + 1, 0);
                    proof {
                        if prev.contains(px as int, py as int) {
                            lemma_with_pixel(prev, px as int, py as int, color);
                        }
                        if mid.contains(px + 1, py + 1) {
                            lemma_with_pixel(mid, px + 1, py + 1, 0);
                        }
                    }
                }
                u += 1;
            }
            v += 1;
        }
        proof {
            let paint = glyph_paint(before, dots, x as int, y as int, color);
            assert(self@.repaints(before, paint));
            lemma_repainted(before, paint);
        }
    }

    /// Draws `string` with its first character at `(x, y)`, every character
    /// [`PITCH`] pixels to the right of the one before, in the glyphs of
    /// `font`. Each glyph is drawn in `color` with its shadow, see
    /// [`Bitmap::draw_glyph`], over what the glyphs before it left.
    pub fn draw_str(&mut self, font: &Font, string: &str, x: i32, y: i32, color: u32)
        requires
            old(self).wf(),
            font.wf(),
        ensures
            final(self).wf(),
            final(self)@ == font.text_drawn(
                old(self)@,
                string@,
                string@.len() as int,
                x as int,
                y as int,
                color,
            ),
    {
        let ghost before = self@;
        let mut cursor: i128 = x as i128;
        let total: usize = string.unicode_len();
        for c in iter: string.chars()
            invariant
                iter.seq() == string@,
                total == string@.len(),
                font.wf(),
                self.wf(),
                cursor == x + iter.index() * PITCH,
                self@ == font.text_drawn(
                    before,
                    string@,
                    iter.index() as int,
                    x as int,
                    y as int,
                    color,
                ),
        {
            let glyph: &Glyph = &font.data[font.translation[slot(c)]];
            self.draw_glyph(glyph, cursor, y as i128, color);
            cursor = cursor + PITCH as i128;
        }
    }
}

} // verus!
