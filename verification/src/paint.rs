//! What a draw call writes for one visible source pixel: the colour itself,
//! a recoloured copy of it, or the colour lit by a radial light and, for a
//! gated tile, faded into what lies under it.

use crate::color::{blend3, blend3_spec, blue, blue_of, green, green_of, pack, red, red_of};
use vstd::prelude::*;

verus! {

/// The first skin tone baked into player art.
pub const SKIN_LIGHT: u32 = 0xffdcb9;

/// The second skin tone baked into player art.
pub const SKIN_SHADE: u32 = 0xe9be93;

/// The number of cells along each side of a brightness table.
pub const LIGHT_CELLS: usize = 16;

/// The number of pixels along each side of one cell of a brightness table.
pub const LIGHT_CELL_SIZE: usize = 16;

/// The least brightness of a gated tile and of a background.
pub const FLOOR_GATED: u32 = 0x0f;

/// The least brightness of a tile that no colour gates.
pub const FLOOR_PLAIN: u32 = 0x2f;

/// The pair of colours that stands in for the two skin tones under the
/// palette `index`: 0 is the unmasked look, 1 to 3 are the red, green and
/// blue masks.
pub open spec fn palette(index: int) -> (u32, u32) {
    if index == 0 {
        (0x3f372eu32, 0x3a2f24u32)
    } else if index == 1 {
        (0xba1102u32, 0x681102u32)
    } else if index == 2 {
        (0x096509u32, 0x224202u32)
    } else {
        (0x2211b7u32, 0x221168u32)
    }
}

/// The colour `c` without its alpha byte, the two skin tones replaced by
/// the pair of the palette `index`.
pub open spec fn recolor_spec(c: u32, index: int) -> u32 {
    let rgb: u32 = (c as int % 0x100_0000) as u32;
    if rgb == SKIN_LIGHT {
        palette(index).0
    } else if rgb == SKIN_SHADE {
        palette(index).1
    } else {
        rgb
    }
}

/// The brightness that a table holds for the point `(ox, oy)`, counted from
/// the table's corner: the low 16 bits of the cell that the point falls in,
/// and 0 outside the table.
pub open spec fn brightness_at(table: Seq<u32>, ox: int, oy: int) -> int {
    if 0 <= ox < 256 && 0 <= oy < 256 && (ox / 16) + (oy / 16) * 16 < table.len() {
        table[(ox / 16) + (oy / 16) * 16] as int % 0x1_0000
    } else {
        0
    }
}

/// One colour channel under a light: the channel scaled by the brightness
/// times the mask's channel, or by the floor where that is more, in 8.8
/// fixed point and capped at 255.
pub open spec fn lit_channel(value: int, bright: int, mask: int, floor: int) -> int {
    let lifted: int = if (bright * mask) / 256 > floor {
        (bright * mask) / 256
    } else {
        floor
    };
    if (value * lifted) / 256 > 255 {
        255
    } else {
        (value * lifted) / 256
    }
}

/// The colour `c` under a light of outer brightness `bright`, tinted by
/// `mask` and never darker than `floor`. The result has alpha 0.
pub open spec fn lit_color(c: u32, bright: int, mask: u32, floor: int) -> u32 {
    pack(
        0,
        lit_channel(red_of(c), bright, red_of(mask), floor),
        lit_channel(green_of(c), bright, green_of(mask), floor),
        lit_channel(blue_of(c), bright, blue_of(mask), floor),
    )
}

/// A light: an inner and an outer brightness table laid over the
/// destination with their corner at `(origin_x, origin_y)`, the active
/// colour mask, the least brightness, whether table values are quartered
/// before use, and for a gated tile the key by which the lit colour is
/// faded into the pixel under it.
pub struct LightView {
    pub low: Seq<u32>,
    pub high: Seq<u32>,
    pub origin_x: int,
    pub origin_y: int,
    pub mask: u32,
    pub floor: int,
    pub quartered: bool,
    pub gate: Option<u32>,
}

impl LightView {
    /// The brightness that `table` gives at the destination pixel `(px, py)`.
    pub open spec fn level(self, table: Seq<u32>, px: int, py: int) -> int {
        if self.quartered {
            brightness_at(table, px - self.origin_x, py - self.origin_y) / 4
        } else {
            brightness_at(table, px - self.origin_x, py - self.origin_y)
        }
    }

    /// The least brightness at `(px, py)`: the floor, raised by the inner
    /// table.
    pub open spec fn floor_at(self, px: int, py: int) -> int {
        if self.level(self.low, px, py) > self.floor {
            self.level(self.low, px, py)
        } else {
            self.floor
        }
    }

    /// What the light makes of the source colour `c` at `(px, py)`, where
    /// the destination so far holds `under`.
    pub open spec fn shade(self, c: u32, under: u32, px: int, py: int) -> u32 {
        let lit = lit_color(c, self.level(self.high, px, py), self.mask, self.floor_at(px, py));
        match self.gate {
            Some(key) => blend3_spec(under, lit, key),
            None => lit,
        }
    }
}

/// What a draw call does with a visible source pixel.
pub enum Paint {
    /// Writes the source colour as it is.
    Copy,
    /// Writes the source colour recoloured by a palette.
    Recolor { index: int },
    /// Writes the source colour lit.
    Light(LightView),
}

impl Paint {
    /// The colour written at `(px, py)` for the visible source colour `c`,
    /// where the destination so far holds `under`.
    pub open spec fn shade(self, c: u32, under: u32, px: int, py: int) -> u32 {
        match self {
            Paint::Copy => c,
            Paint::Recolor { index } => recolor_spec(c, index),
            Paint::Light(light) => light.shade(c, under, px, py),
        }
    }
}

/// The palette index that stands for the colour mask `mask`: 0 for a mask
/// without colour, 4 for the golden mask, and otherwise 1, 2 or 3 for the
/// strongest of red, green and blue, blue winning every tie it is part of
/// and green the tie with red. (Index 4 names no palette of
/// [`palette`].)
pub open spec fn mask_palette_index(mask: u32) -> int {
    if mask as int % 0x100_0000 == 0 {
        0
    } else if mask == crate::color::YELLOW {
        4
    } else if red_of(mask) > green_of(mask) {
        if red_of(mask) > blue_of(mask) {
            1
        } else {
            3
        }
    } else if green_of(mask) > blue_of(mask) {
        2
    } else {
        3
    }
}

/// The palette index of a colour mask, see [`mask_palette_index`].
pub fn palette_index_of_mask(mask: u32) -> (index: u32)
    ensures
        index == mask_palette_index(mask),
{
    let r: u32 = red(mask);
    let g: u32 = green(mask);
    let b: u32 = blue(mask);
    if mask % 0x100_0000 == 0 {
        0
    } else if mask == crate::color::YELLOW {
        4
    } else if r > g {
        if r > b {
            1
        } else {
            3
        }
    } else if g > b {
        2
    } else {
        3
    }
}

/// The pair of colours of the palette `index`.
pub fn palette_pair(index: u32) -> (pair: (u32, u32))
    requires
        index < 4,
    ensures
        pair == palette(index as int),
{
    if index == 0 {
        (0x3f372e, 0x3a2f24)
    } else if index == 1 {
        (0xba1102, 0x681102)
    } else if index == 2 {
        (0x096509, 0x224202)
    } else {
        (0x2211b7, 0x221168)
    }
}

/// Recolours `c` by the palette `index`, see [`recolor_spec`].
pub fn recolor(c: u32, index: u32) -> (out: u32)
    requires
        index < 4,
    ensures
        out == recolor_spec(c, index as int),
{
    let rgb: u32 = c % 0x100_0000;
    let pair = palette_pair(index);
    if rgb == SKIN_LIGHT {
        pair.0
    } else if rgb == SKIN_SHADE {
        pair.1
    } else {
        rgb
    }
}

/// Looks up a brightness table, see [`brightness_at`].
pub fn brightness(table: &[u32], ox: i64, oy: i64) -> (level: u32)
    ensures
        level == brightness_at(table@, ox as int, oy as int),
        level < 0x1_0000,
{
    if 0 <= ox && ox < 256 && 0 <= oy && oy < 256 {
        let cell: usize = (ox / 16) as usize + ((oy / 16) as usize) * 16;
        if cell < table.len() {
            table[cell] % 0x1_0000
        } else {
            0
        }
    } else {
        0
    }
}

fn light_channel(value: u32, bright: u32, mask: u32, floor: u32) -> (out: u32)
    requires
        value < 256,
        bright < 0x1_0000,
        mask < 256,
        floor < 0x1_0000,
    ensures
        out == lit_channel(value as int, bright as int, mask as int, floor as int),
        out < 256,
{
    assert(0 <= bright * mask <= 0xffff * 0xff) by (nonlinear_arith)
        requires
            bright <= 0xffff,
            mask <= 0xff,
    ;
    let tinted: u32 = (bright * mask) / 256;
    let lifted: u32 = if tinted > floor { tinted } else { floor };
    assert(0 <= value * lifted <= 0xff * 0xffff) by (nonlinear_arith)
        requires
            value <= 0xff,
            lifted <= 0xffff,
    ;
    let scaled: u32 = (value * lifted) / 256;
    if scaled > 255 {
        255
    } else {
        scaled
    }
}

/// Lights `c`, see [`lit_color`].
pub fn light_color(c: u32, bright: u32, mask: u32, floor: u32) -> (out: u32)
    requires
        bright < 0x1_0000,
        floor < 0x1_0000,
    ensures
        out == lit_color(c, bright as int, mask, floor as int),
{
    let r: u32 = light_channel(red(c), bright, red(mask), floor);
    let g: u32 = light_channel(green(c), bright, green(mask), floor);
    let b: u32 = light_channel(blue(c), bright, blue(mask), floor);
    crate::color::pack_argb(0, r, g, b)
}

/// A light, see [`LightView`].
pub struct Light<'t> {
    pub low: &'t [u32],
    pub high: &'t [u32],
    pub origin_x: i32,
    pub origin_y: i32,
    pub mask: u32,
    pub floor: u32,
    pub quartered: bool,
    pub gate: Option<u32>,
}

impl<'t> View for Light<'t> {
    type V = LightView;

    open spec fn view(&self) -> LightView {
        LightView {
            low: self.low@,
            high: self.high@,
            origin_x: self.origin_x as int,
            origin_y: self.origin_y as int,
            mask: self.mask,
            floor: self.floor as int,
            quartered: self.quartered,
            gate: self.gate,
        }
    }
}

impl<'t> Light<'t> {
    fn level(&self, table: &[u32], px: usize, py: usize) -> (level: u32)
        requires
            px <= i32::MAX,
            py <= i32::MAX,
        ensures
            level == self@.level(table@, px as int, py as int),
            level < 0x1_0000,
    {
        let raw: u32 = brightness(
            table,
            px as i64 - self.origin_x as i64,
            py as i64 - self.origin_y as i64,
        );
        if self.quartered {
            raw / 4
        } else {
            raw
        }
    }

    /// What the light makes of `c` at `(px, py)`, see [`LightView::shade`].
    pub fn shade(&self, c: u32, under: u32, px: usize, py: usize) -> (out: u32)
        requires
            px <= i32::MAX,
            py <= i32::MAX,
            self.floor < 0x1_0000,
        ensures
            out == self@.shade(c, under, px as int, py as int),
    {
        let inner: u32 = self.level(self.low, px, py);
        let outer: u32 = self.level(self.high, px, py);
        let floor: u32 = if inner > self.floor { inner } else { self.floor };
        let lit: u32 = light_color(c, outer, self.mask, floor);
        match self.gate {
            Some(key) => blend3(under, lit, key),
            None => lit,
        }
    }
}

/// What a draw call does with a visible source pixel, see [`Paint`].
pub enum Shader<'t> {
    Copy,
    Recolor { index: u32 },
    Light(Light<'t>),
}

impl<'t> View for Shader<'t> {
    type V = Paint;

    open spec fn view(&self) -> Paint {
        match self {
            Shader::Copy => Paint::Copy,
            Shader::Recolor { index } => Paint::Recolor { index: *index as int },
            Shader::Light(light) => Paint::Light(light@),
        }
    }
}

impl<'t> Shader<'t> {
    /// The shader can run: a palette index names one of the four palettes,
    /// and a light's floor fits 16 bits.
    pub open spec fn wf(&self) -> bool {
        match self {
            Shader::Copy => true,
            Shader::Recolor { index } => *index < 4,
            Shader::Light(light) => light.floor < 0x1_0000,
        }
    }

    /// The colour to write at `(px, py)`, see [`Paint::shade`].
    pub fn shade(&self, c: u32, under: u32, px: usize, py: usize) -> (out: u32)
        requires
            self.wf(),
            px <= i32::MAX,
            py <= i32::MAX,
        ensures
            out == self@.shade(c, under, px as int, py as int),
    {
        match self {
            Shader::Copy => c,
            Shader::Recolor { index } => recolor(c, *index),
            Shader::Light(light) => light.shade(c, under, px, py),
        }
    }
}

} // verus!
