//! Packed 32-bit colours (alpha, red, green, blue; eight bits each) and the
//! combinators that every draw call is built from.

use vstd::prelude::*;

verus! {

/// A packed colour used as a per-channel mask.
pub type ColorChannel = u32;

pub const RED: u32 = 0xffff0000;

pub const GREEN: u32 = 0xff00ff00;

pub const BLUE: u32 = 0xff0000ff;

pub const YELLOW: u32 = 0xffffff00;

pub const CYAN: u32 = 0xff00ffff;

pub const MAGENTA: u32 = 0xffff00ff;

pub const ORANGE: u32 = 0xffff7f00;

pub const PURPLE: u32 = 0xff7f00ff;

pub const GREY: u32 = 0xff777777;

pub const BLACK: u32 = 0xff000000;

pub const WHITE: u32 = 0xffffffff;

/// The alpha byte of a packed colour.
pub open spec fn alpha_of(c: u32) -> int {
    (c as int) / 0x100_0000
}

/// The red byte of a packed colour.
pub open spec fn red_of(c: u32) -> int {
    ((c as int) / 0x1_0000) % 0x100
}

/// The green byte of a packed colour.
pub open spec fn green_of(c: u32) -> int {
    ((c as int) / 0x100) % 0x100
}

/// The blue byte of a packed colour.
pub open spec fn blue_of(c: u32) -> int {
    (c as int) % 0x100
}

/// The colour with the given four bytes.
pub open spec fn pack(a: int, r: int, g: int, b: int) -> u32
    recommends
        0 <= a < 256,
        0 <= r < 256,
        0 <= g < 256,
        0 <= b < 256,
{
    (a * 0x100_0000 + r * 0x1_0000 + g * 0x100 + b) as u32
}

/// A colour counts as a pixel when its alpha byte is not zero.
pub open spec fn is_visible(c: u32) -> bool {
    alpha_of(c) != 0
}

/// One channel of a linear blend: `a` at factor 0, moving towards `b`.
pub open spec fn lerp_channel(a: int, b: int, factor: int) -> int {
    (a * (255 - factor) + b * factor) / 256
}

/// One channel of a saturating sum.
pub open spec fn add_channel(a: int, b: int) -> int {
    if a + b > 255 {
        255
    } else {
        a + b
    }
}

pub open spec fn blend_spec(a: u32, b: u32, factor: int) -> u32 {
    pack(
        255,
        lerp_channel(red_of(a), red_of(b), factor),
        lerp_channel(green_of(a), green_of(b), factor),
        lerp_channel(blue_of(a), blue_of(b), factor),
    )
}

pub open spec fn blend3_spec(a: u32, b: u32, factors: u32) -> u32 {
    pack(
        255,
        lerp_channel(red_of(a), red_of(b), red_of(factors)),
        lerp_channel(green_of(a), green_of(b), green_of(factors)),
        lerp_channel(blue_of(a), blue_of(b), blue_of(factors)),
    )
}

pub open spec fn add_blend_spec(a: u32, b: u32) -> u32 {
    pack(
        255,
        add_channel(red_of(a), red_of(b)),
        add_channel(green_of(a), green_of(b)),
        add_channel(blue_of(a), blue_of(b)),
    )
}

proof fn lemma_unpack_bits(c: u32)
    by (bit_vector)
    ensures
        c >> 24 == c / 0x100_0000,
        (c >> 16) & 0xff == (c / 0x1_0000) % 0x100,
        (c >> 8) & 0xff == (c / 0x100) % 0x100,
        c & 0xff == c % 0x100,
        (c & 0xff000000 != 0) == (c / 0x100_0000 != 0),
        c & 0xffffff == c % 0x100_0000,
        c >> 8 == c / 0x100,
        c >> 2 == c / 4,
        c & 0xffff == c % 0x1_0000,
{
}

proof fn lemma_pack_bits(a: u32, r: u32, g: u32, b: u32)
    by (bit_vector)
    requires
        a < 256,
        r < 256,
        g < 256,
        b < 256,
    ensures
        (a << 24) | (r << 16) | (g << 8) | b == a * 0x100_0000 + r * 0x1_0000 + g * 0x100 + b,
        (r << 16) | (g << 8) | b == r * 0x1_0000 + g * 0x100 + b,
{
}

/// Packing four bytes and reading them back gives the same bytes.
pub proof fn lemma_pack_unpack(a: int, r: int, g: int, b: int)
    requires
        0 <= a < 256,
        0 <= r < 256,
        0 <= g < 256,
        0 <= b < 256,
    ensures
        alpha_of(pack(a, r, g, b)) == a,
        red_of(pack(a, r, g, b)) == r,
        green_of(pack(a, r, g, b)) == g,
        blue_of(pack(a, r, g, b)) == b,
{
    let v: int = a * 0x100_0000 + r * 0x1_0000 + g * 0x100 + b;
    assert(pack(a, r, g, b) == v);
    vstd::arithmetic::div_mod::lemma_fundamental_div_mod_converse(
        v,
        0x100_0000,
        a,
        r * 0x1_0000 + g * 0x100 + b,
    );
    vstd::arithmetic::div_mod::lemma_fundamental_div_mod_converse(
        v,
        0x1_0000,
        a * 0x100 + r,
        g * 0x100 + b,
    );
    vstd::arithmetic::div_mod::lemma_fundamental_div_mod_converse(
        v,
        0x100,
        a * 0x1_0000 + r * 0x100 + g,
        b,
    );
    vstd::arithmetic::div_mod::lemma_fundamental_div_mod_converse(a * 0x100 + r, 0x100, a, r);
    vstd::arithmetic::div_mod::lemma_fundamental_div_mod_converse(
        a * 0x1_0000 + r * 0x100 + g,
        0x100,
        a * 0x100 + r,
        g,
    );
}

/// The colour `c` with its alpha byte set to 255.
pub open spec fn force_opaque(c: u32) -> u32 {
    pack(255, red_of(c), green_of(c), blue_of(c))
}

/// Forcing a colour opaque sets its top eight bits and keeps the rest.
pub proof fn lemma_force_opaque_bits(c: u32)
    ensures
        force_opaque(c) == c | 0xff000000,
{
    lemma_unpack_bits(c);
    lemma_pack_bits(255, (c >> 16) & 0xff, (c >> 8) & 0xff, c & 0xff);
    assert((255u32 << 24) | (((c >> 16) & 0xff) << 16) | (((c >> 8) & 0xff) << 8) | (c & 0xff) == c
        | 0xff000000) by (bit_vector);
    assert((c >> 16) & 0xff < 256 && (c >> 8) & 0xff < 256 && c & 0xff < 256) by (bit_vector);
}

/// A blended channel lies between 0 and 254.
pub proof fn lemma_lerp_channel_bounds(a: int, b: int, factor: int)
    requires
        0 <= a < 256,
        0 <= b < 256,
        0 <= factor <= 255,
    ensures
        0 <= lerp_channel(a, b, factor) < 255,
{
    assert(0 <= a * (255 - factor) + b * factor <= 255 * 255) by (nonlinear_arith)
        requires
            0 <= a <= 255,
            0 <= b <= 255,
            0 <= factor <= 255,
    ;
}

/// Every blend and every sum of two colours is opaque.
pub proof fn lemma_combinators_are_opaque(a: u32, b: u32, factor: u32)
    ensures
        factor <= 255 ==> alpha_of(blend_spec(a, b, factor as int)) == 255,
        alpha_of(blend3_spec(a, b, factor)) == 255,
        alpha_of(add_blend_spec(a, b)) == 255,
{
    if factor <= 255 {
        lemma_lerp_channel_bounds(red_of(a), red_of(b), factor as int);
        lemma_lerp_channel_bounds(green_of(a), green_of(b), factor as int);
        lemma_lerp_channel_bounds(blue_of(a), blue_of(b), factor as int);
        lemma_pack_unpack(
            255,
            lerp_channel(red_of(a), red_of(b), factor as int),
            lerp_channel(green_of(a), green_of(b), factor as int),
            lerp_channel(blue_of(a), blue_of(b), factor as int),
        );
    }
    lemma_lerp_channel_bounds(red_of(a), red_of(b), red_of(factor));
    lemma_lerp_channel_bounds(green_of(a), green_of(b), green_of(factor));
    lemma_lerp_channel_bounds(blue_of(a), blue_of(b), blue_of(factor));
    lemma_pack_unpack(
        255,
        lerp_channel(red_of(a), red_of(b), red_of(factor)),
        lerp_channel(green_of(a), green_of(b), green_of(factor)),
        lerp_channel(blue_of(a), blue_of(b), blue_of(factor)),
    );
    lemma_pack_unpack(
        255,
        add_channel(red_of(a), red_of(b)),
        add_channel(green_of(a), green_of(b)),
        add_channel(blue_of(a), blue_of(b)),
    );
}

/// What a channel value becomes when it is scaled by 255/256 and rounded
/// down: it loses one unit unless it is already zero.
pub open spec fn dimmed(v: int) -> int {
    if v == 0 {
        0
    } else {
        v - 1
    }
}

/// At the two ends of the factor range a blended channel is one of its
/// inputs scaled by 255/256: the first input at factor 0, the second at
/// factor 255.
pub proof fn lemma_lerp_channel_ends(a: int, b: int)
    requires
        0 <= a < 256,
        0 <= b < 256,
    ensures
        lerp_channel(a, b, 0) == dimmed(a),
        lerp_channel(a, b, 255) == dimmed(b),
{
    if a > 0 {
        vstd::arithmetic::div_mod::lemma_fundamental_div_mod_converse(
            a * 255,
            256,
            a - 1,
            256 - a,
        );
    }
    if b > 0 {
        vstd::arithmetic::div_mod::lemma_fundamental_div_mod_converse(
            b * 255,
            256,
            b - 1,
            256 - b,
        );
    }
}

/// For every pair of colours, blending with factor 0 gives the first colour,
/// opaque, with each non-zero channel one unit darker; blending with factor
/// 255 gives the second colour in the same way.
pub proof fn lemma_blend_ends(a: u32, b: u32)
    ensures
        blend_spec(a, b, 0) == pack(
            255,
            dimmed(red_of(a)),
            dimmed(green_of(a)),
            dimmed(blue_of(a)),
        ),
        blend_spec(a, b, 255) == pack(
            255,
            dimmed(red_of(b)),
            dimmed(green_of(b)),
            dimmed(blue_of(b)),
        ),
{
    lemma_lerp_channel_ends(red_of(a), red_of(b));
    lemma_lerp_channel_ends(green_of(a), green_of(b));
    lemma_lerp_channel_ends(blue_of(a), blue_of(b));
}

/// Blending with factor 0 gives the first colour with its alpha forced
/// opaque, whenever that colour has no red, green or blue in it. (A channel
/// that is not zero comes out one unit darker, see `lemma_blend_ends`.)
pub proof fn lemma_blend_factor_zero(a: u32, b: u32)
    requires
        red_of(a) == 0,
        green_of(a) == 0,
        blue_of(a) == 0,
    ensures
        blend_spec(a, b, 0) == force_opaque(a),
{
    lemma_blend_ends(a, b);
}

/// Blending with factor 255 gives the second colour with its alpha forced
/// opaque, whenever that colour has no red, green or blue in it.
pub proof fn lemma_blend_factor_full(a: u32, b: u32)
    requires
        red_of(b) == 0,
        green_of(b) == 0,
        blue_of(b) == 0,
    ensures
        blend_spec(a, b, 255) == force_opaque(b),
{
    lemma_blend_ends(a, b);
}

pub fn alpha(c: u32) -> (a: u32)
    ensures
        a == alpha_of(c),
{
    proof {
        lemma_unpack_bits(c);
    }
    c >> 24
}

pub fn red(c: u32) -> (r: u32)
    ensures
        r == red_of(c),
        r < 256,
{
    proof {
        lemma_unpack_bits(c);
    }
    (c >> 16) & 0xff
}

pub fn green(c: u32) -> (g: u32)
    ensures
        g == green_of(c),
        g < 256,
{
    proof {
        lemma_unpack_bits(c);
    }
    (c >> 8) & 0xff
}

pub fn blue(c: u32) -> (b: u32)
    ensures
        b == blue_of(c),
        b < 256,
{
    proof {
        lemma_unpack_bits(c);
    }
    c & 0xff
}

/// Whether the alpha byte of `c` is non-zero.
pub fn visible(c: u32) -> (v: bool)
    ensures
        v == is_visible(c),
{
    proof {
        lemma_unpack_bits(c);
    }
    (c & 0xff000000) != 0
}

/// Packs four bytes into a colour.
pub fn pack_argb(a: u32, r: u32, g: u32, b: u32) -> (c: u32)
    requires
        a < 256,
        r < 256,
        g < 256,
        b < 256,
    ensures
        c == pack(a as int, r as int, g as int, b as int),
{
    proof {
        lemma_pack_bits(a, r, g, b);
    }
    (a << 24) | (r << 16) | (g << 8) | b
}

fn lerp(a: u32, b: u32, factor: u32) -> (c: u32)
    requires
        a < 256,
        b < 256,
        factor <= 255,
    ensures
        c == lerp_channel(a as int, b as int, factor as int),
        c < 255,
{
    assert(a * (255 - factor) + b * factor <= 255 * 255) by (nonlinear_arith)
        requires
            a <= 255,
            b <= 255,
            factor <= 255,
    ;
    assert(0 <= a * (255 - factor) && 0 <= b * factor) by (nonlinear_arith)
        requires
            factor <= 255,
    ;
    let mixed: u32 = a * (255 - factor) + b * factor;
    proof {
        lemma_unpack_bits(mixed);
    }
    mixed >> 8
}

/// Blends `a` towards `b` by one factor for all three colour channels.
/// The result is opaque.
pub fn blend(a: u32, b: u32, alpha: u32) -> (c: u32)
    requires
        alpha <= 255,
    ensures
        c == blend_spec(a, b, alpha as int),
{
    let r: u32 = lerp(red(a), red(b), alpha);
    let g: u32 = lerp(green(a), green(b), alpha);
    let bl: u32 = lerp(blue(a), blue(b), alpha);
    pack_argb(255, r, g, bl)
}

/// Blends `a` towards `b` with one factor per channel, taken from the
/// red, green and blue bytes of `alpha`. The result is opaque.
pub fn blend3(a: u32, b: u32, alpha: u32) -> (c: u32)
    ensures
        c == blend3_spec(a, b, alpha),
{
    let r: u32 = lerp(red(a), red(b), red(alpha));
    let g: u32 = lerp(green(a), green(b), green(alpha));
    let bl: u32 = lerp(blue(a), blue(b), blue(alpha));
    pack_argb(255, r, g, bl)
}

/// Adds the colour channels of `a` and `b`, each sum capped at 255.
/// The result is opaque.
pub fn add_blend(a: u32, b: u32) -> (c: u32)
    ensures
        c == add_blend_spec(a, b),
{
    let rs: u32 = red(a) + red(b);
    let gs: u32 = green(a) + green(b);
    let bs: u32 = blue(a) + blue(b);
    let r: u32 = if rs > 255 { 255 } else { rs };
    let g: u32 = if gs > 255 { 255 } else { gs };
    let bl: u32 = if bs > 255 { 255 } else { bs };
    pack_argb(255, r, g, bl)
}

} // verus!
