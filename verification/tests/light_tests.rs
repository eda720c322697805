use softraster::bitmap::Bitmap;
use softraster::paint::{brightness, light_color, palette_index_of_mask, palette_pair, recolor};
use softraster::span::SCALE_ONE;

fn tables() -> (Vec<u32>, Vec<u32>) {
    let mut low = vec![0u32; 256];
    let mut high = vec![0u32; 256];
    high[0] = 384;
    high[1] = 1024;
    low[1] = 400;
    high[17] = 0x1ffff;
    (low, high)
}

fn one_pixel(color: u32) -> Bitmap<'static> {
    let mut b = Bitmap::new(1, 1);
    b.plot(0, 0, color);
    b
}

#[test]
fn brightness_reads_the_cell_of_sixteen_pixels() {
    let (_, high) = tables();
    assert_eq!(brightness(&high, 0, 0), 384);
    assert_eq!(brightness(&high, 15, 15), 384);
    assert_eq!(brightness(&high, 16, 0), 1024);
    assert_eq!(brightness(&high, 16, 16), 0xffff);
    assert_eq!(brightness(&high, 255, 255), 0);
    assert_eq!(brightness(&high, 256, 0), 0);
    assert_eq!(brightness(&high, -1, 0), 0);
    assert_eq!(brightness(&high, 0, -1), 0);
    assert_eq!(brightness(&[7, 8], 16, 0), 8);
    assert_eq!(brightness(&[7, 8], 32, 0), 0);
    assert_eq!(brightness(&[], 0, 0), 0);
}

#[test]
fn light_color_scales_each_channel() {
    // red: (0xc0 * max((384 * 0xff) >> 8, 15)) >> 8 = (192 * 382) >> 8 = 286 -> 255
    // green: (0x80 * 382) >> 8 = 191, blue: (0x40 * max((384 * 0x80) >> 8, 15)) >> 8 = 48
    assert_eq!(light_color(0xffc08040, 384, 0xffffff80, 15), 0x00ffbf30);
    // no light: every channel at the floor
    assert_eq!(light_color(0xffc08040, 0, 0xffffffff, 0x2f), 0x0023170b);
    assert_eq!(light_color(0xffffffff, 0xffff, 0xffffffff, 0), 0x00ffffff);
    assert_eq!(light_color(0xffffffff, 0, 0, 0), 0);
}

#[test]
fn background_is_lit_by_quartered_tables() {
    let (low, high) = tables();
    let src = one_pixel(0xffc08040);
    let cases = [
        ((0, 0), 0x472f0cu32),
        ((15, 15), 0x472f0c),
        ((16, 0), 0xbf7f20),
        ((31, 3), 0xbf7f20),
        ((16, 16), 0xffffff),
        ((300, 0), 0x0b0703),
        ((0, 16), 0x0b0703),
    ];
    for ((x, y), expected) in cases {
        let mut dst = Bitmap::new(320, 32);
        src.draw_background(&mut dst, x, y, SCALE_ONE, SCALE_ONE, 0xffffff80, &low, &high, (0, 0));
        assert_eq!(dst.load_pixel(x, y), expected, "at ({}, {})", x, y);
    }
}

#[test]
fn background_light_moves_with_its_origin() {
    let (low, high) = tables();
    let src = one_pixel(0xffc08040);
    let cases = [((0, 0), 0x0b0703u32), ((5, 5), 0x472f0c), ((20, 4), 0x0b0703), ((21, 5), 0xbf7f20)];
    for ((x, y), expected) in cases {
        let mut dst = Bitmap::new(32, 32);
        src.draw_background(&mut dst, x, y, SCALE_ONE, SCALE_ONE, 0xffffff80, &low, &high, (5, 5));
        assert_eq!(dst.load_pixel(x, y), expected, "at ({}, {})", x, y);
    }
}

#[test]
fn background_skips_invisible_pixels_and_tiny_scales() {
    let (low, high) = tables();
    let mut dst = Bitmap::new(2, 2);
    dst.clear(0x11);
    one_pixel(0x00ffffff).draw_background(
        &mut dst,
        0,
        0,
        SCALE_ONE,
        SCALE_ONE,
        0xffffffff,
        &low,
        &high,
        (0, 0),
    );
    one_pixel(0xffffffff).draw_background(&mut dst, 0, 0, 30, SCALE_ONE, 0xffffffff, &low, &high, (0, 0));
    assert_eq!(dst.pixels(), &[0x11u32; 4][..]);
}

#[test]
fn plain_tile_is_written_as_lit() {
    let (low, high) = tables();
    let src = one_pixel(0xffc08040);
    let cases = [((0, 0), 0xffbf30u32), ((16, 0), 0xffff80), ((40, 40), 0x23170b)];
    for ((x, y), expected) in cases {
        let mut dst = Bitmap::new(64, 64);
        dst.clear(0xff102030);
        src.draw_tile(&mut dst, x, y, false, 0, 0xffffff80, &low, &high, (0, 0));
        assert_eq!(dst.load_pixel(x, y), expected, "at ({}, {})", x, y);
        assert_eq!(dst.load_pixel(x + 1, y), 0xff102030);
    }
}

#[test]
fn gated_tile_is_faded_into_what_lies_under_it() {
    let (low, high) = tables();
    let src = one_pixel(0xffc08040);
    let cases = [((0, 0), 0xff4f1f2fu32), ((16, 0), 0xff871f2f), ((40, 40), 0xff0d1f2f)];
    for ((x, y), expected) in cases {
        let mut dst = Bitmap::new(64, 64);
        dst.clear(0xff102030);
        src.draw_tile(&mut dst, x, y, true, 0xffff0000, 0xff80ff80, &low, &high, (0, 0));
        assert_eq!(dst.load_pixel(x, y), expected, "at ({}, {})", x, y);
    }
}

#[test]
fn tile_is_clipped_like_a_blit() {
    let (low, high) = tables();
    let mut src = Bitmap::new(2, 2);
    src.clear(0xffffffff);
    let mut dst = Bitmap::new(2, 2);
    src.draw_tile(&mut dst, 1, -1, false, 0, 0, &low, &high, (1000, 1000));
    // unlit and not gated: every channel (0xff * 0x2f) >> 8 = 0x2e
    assert_eq!(dst.pixels(), &[0, 0x2e2e2e, 0, 0][..]);
}

#[test]
fn palette_pairs_and_recolouring() {
    assert_eq!(palette_pair(0), (0x3f372e, 0x3a2f24));
    assert_eq!(palette_pair(1), (0xba1102, 0x681102));
    assert_eq!(palette_pair(2), (0x096509, 0x224202));
    assert_eq!(palette_pair(3), (0x2211b7, 0x221168));
    assert_eq!(recolor(0xffffdcb9, 1), 0xba1102);
    assert_eq!(recolor(0x12e9be93, 3), 0x221168);
    assert_eq!(recolor(0xff010203, 2), 0x010203);
}

#[test]
fn palette_index_follows_the_strongest_channel() {
    assert_eq!(palette_index_of_mask(0), 0);
    assert_eq!(palette_index_of_mask(0xff000000), 0);
    assert_eq!(palette_index_of_mask(0xffffff00), 4);
    assert_eq!(palette_index_of_mask(0xffff0000), 1);
    assert_eq!(palette_index_of_mask(0xff00ff00), 2);
    assert_eq!(palette_index_of_mask(0xff0000ff), 3);
    assert_eq!(palette_index_of_mask(0x00ffff00), 2);
    assert_eq!(palette_index_of_mask(0xffff00ff), 3);
    assert_eq!(palette_index_of_mask(0xffffffff), 3);
    assert_eq!(palette_index_of_mask(0xff804020), 1);
}
