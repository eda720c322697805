use softraster::color::{add_blend, blend, blend3};

#[test]
fn blend_halfway_mixes_channels() {
    // factor 128: (0 * 127 + 255 * 128) >> 8 = 127 for a channel going 0 -> 255
    assert_eq!(blend(0xff000000, 0xffffffff, 128), 0xff7f7f7f);
}

#[test]
fn blend_factor_zero_keeps_black() {
    assert_eq!(blend(0x00000000, 0x12345678, 0), 0xff000000);
}

#[test]
fn blend_factor_zero_darkens_by_one() {
    assert_eq!(blend(0x00ffffff, 0x00000000, 0), 0xfffefefe);
}

#[test]
fn blend3_uses_one_factor_per_channel() {
    // red factor 255, green factor 0, blue factor 128
    assert_eq!(blend3(0xff000000, 0xffffffff, 0x00ff0080), 0xfffe007f);
}

#[test]
fn add_blend_saturates() {
    assert_eq!(add_blend(0x00f01020, 0x00203040), 0xffff4060);
}

#[test]
fn blend_factor_full_keeps_black() {
    assert_eq!(blend(0x12345678, 0x00000000, 255), 0xff000000);
    // a channel that is not zero comes out one unit darker
    assert_eq!(blend(0x00000000, 0x00ff8001, 255), 0xfffe7f00);
}

#[test]
fn combinators_force_the_alpha_opaque() {
    assert_eq!(blend(0, 0, 17) >> 24, 0xff);
    assert_eq!(blend3(0x00112233, 0x00445566, 0x00000000) >> 24, 0xff);
    assert_eq!(add_blend(0, 0), 0xff000000);
}
