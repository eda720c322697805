use softraster::bitmap::Bitmap;
use softraster::span::SCALE_ONE;

fn filled(width: usize, height: usize, colors: &[u32]) -> Bitmap<'static> {
    let mut b = Bitmap::new(width, height);
    for y in 0..height {
        for x in 0..width {
            b.plot(x as i32, y as i32, colors[x + y * width]);
        }
    }
    b
}

fn grid(b: &Bitmap) -> Vec<u32> {
    let mut out = Vec::new();
    for y in 0..b.height() {
        for x in 0..b.width() {
            out.push(b.load_pixel(x as i32, y as i32));
        }
    }
    out
}

#[test]
fn new_bitmap_is_zero_filled() {
    let b = Bitmap::new(3, 2);
    assert_eq!(b.width(), 3);
    assert_eq!(b.height(), 2);
    assert_eq!(b.stride(), 3);
    assert_eq!(b.pixels(), &[0u32; 6][..]);
}

#[test]
fn plot_and_load_pixel_are_bounds_checked() {
    let mut b = Bitmap::new(2, 2);
    b.plot(1, 1, 0xff112233);
    b.plot(2, 0, 0xffffffff);
    b.plot(-1, 0, 0xffffffff);
    b.plot(0, 2, 0xffffffff);
    assert_eq!(grid(&b), vec![0, 0, 0, 0xff112233]);
    assert_eq!(b.load_pixel(1, 1), 0xff112233);
    assert_eq!(b.load_pixel(2, 1), 0);
    assert_eq!(b.load_pixel(0, -1), 0);
}

#[test]
fn blit_copies_only_visible_pixels() {
    let src = filled(2, 2, &[0xff000001, 0x00000002, 0x80000003, 0xff000004]);
    let mut dst = filled(3, 3, &[0xaa; 9]);
    src.draw_on(&mut dst, 1, 1);
    assert_eq!(
        grid(&dst),
        vec![0xaa, 0xaa, 0xaa, 0xaa, 0xff000001, 0xaa, 0xaa, 0x80000003, 0xff000004]
    );
}

#[test]
fn blit_clips_at_every_edge() {
    let src = filled(2, 2, &[0xff000001, 0xff000002, 0xff000003, 0xff000004]);
    let mut dst = Bitmap::new(2, 2);
    src.draw_on(&mut dst, -1, -1);
    assert_eq!(grid(&dst), vec![0xff000004, 0, 0, 0]);
    let mut dst = Bitmap::new(2, 2);
    src.draw_on(&mut dst, 1, 1);
    assert_eq!(grid(&dst), vec![0, 0, 0, 0xff000001]);
    let mut dst = Bitmap::new(2, 2);
    src.draw_on(&mut dst, 2, 0);
    assert_eq!(grid(&dst), vec![0, 0, 0, 0]);
    let mut dst = Bitmap::new(2, 2);
    src.draw_on(&mut dst, i32::MIN, i32::MAX);
    assert_eq!(grid(&dst), vec![0, 0, 0, 0]);
}

#[test]
fn blit_into_borrowed_memory_leaves_padding_alone() {
    let src = filled(2, 2, &[0xff000001, 0xff000002, 0xff000003, 0xff000004]);
    let mut memory = vec![0x55u32; 4 * 3];
    {
        let mut dst = Bitmap::new_borrowed(&mut memory, 3, 3, 4);
        src.draw_on(&mut dst, 2, 1);
        src.draw_on(&mut dst, -1, 2);
    }
    assert_eq!(
        memory,
        vec![
            0x55, 0x55, 0x55, 0x55, //
            0x55, 0x55, 0xff000001, 0x55, //
            0xff000002, 0x55, 0xff000003, 0x55,
        ]
    );
}

#[test]
fn blit_scaled_doubles_each_pixel() {
    let src = filled(2, 2, &[0xff0000a1, 0xff0000a2, 0xff0000a3, 0xff0000a4]);
    let mut dst = Bitmap::new(4, 4);
    src.draw_on_scaled(&mut dst, 0, 0, 2 * SCALE_ONE, 2 * SCALE_ONE);
    let (a, b, c, d) = (0xff0000a1, 0xff0000a2, 0xff0000a3, 0xff0000a4);
    assert_eq!(grid(&dst), vec![a, a, b, b, a, a, b, b, c, c, d, d, c, c, d, d]);
}

#[test]
fn blit_scaled_by_one_matches_blit() {
    let colors: Vec<u32> = (0..16).map(|i| if i % 3 == 0 { 0 } else { 0xff000000 + i }).collect();
    let src = filled(4, 4, &colors);
    for (x, y) in [(0, 0), (-1, 2), (3, -2), (-5, 0), (6, 6), (2, 5)] {
        let mut plain = filled(6, 6, &[0x77; 36]);
        let mut scaled = filled(6, 6, &[0x77; 36]);
        src.draw_on(&mut plain, x, y);
        src.draw_on_scaled(&mut scaled, x, y, SCALE_ONE, SCALE_ONE);
        assert_eq!(grid(&plain), grid(&scaled));
    }
}

#[test]
fn blit_scaled_by_one_differs_for_a_side_of_three() {
    // 65536 / 3 * 3 = 65535: the second destination pixel still samples column 0
    let src = filled(3, 1, &[0xff000001, 0xff000002, 0xff000003]);
    let mut dst = Bitmap::new(3, 1);
    src.draw_on_scaled(&mut dst, 0, 0, SCALE_ONE, SCALE_ONE);
    assert_eq!(grid(&dst), vec![0xff000001, 0xff000001, 0xff000002]);
}

#[test]
fn blit_scaled_negative_scale_mirrors() {
    let src = filled(2, 1, &[0xff000001, 0xff000002]);
    let mut dst = Bitmap::new(4, 1);
    src.draw_on_scaled(&mut dst, 0, 0, -2 * SCALE_ONE, SCALE_ONE);
    assert_eq!(grid(&dst), vec![0xff000002, 0xff000002, 0xff000001, 0xff000001]);
}

#[test]
fn blit_scaled_near_zero_scale_is_a_no_op() {
    let src = filled(2, 2, &[0xff000001; 4]);
    let mut dst = Bitmap::new(4, 4);
    src.draw_on_scaled(&mut dst, 0, 0, 65, SCALE_ONE);
    src.draw_on_scaled(&mut dst, 0, 0, SCALE_ONE, -65);
    src.draw_on_scaled(&mut dst, 0, 0, 0, 0);
    assert_eq!(grid(&dst), vec![0; 16]);
}

#[test]
fn blit_scaled_halves() {
    let src = filled(4, 1, &[0xff000001, 0xff000002, 0xff000003, 0xff000004]);
    let mut dst = Bitmap::new(4, 1);
    src.draw_on_scaled(&mut dst, 1, 0, SCALE_ONE / 2, SCALE_ONE);
    assert_eq!(grid(&dst), vec![0, 0xff000001, 0xff000003, 0]);
}

#[test]
fn recolor_swaps_the_two_skin_tones() {
    let src = filled(4, 1, &[0xffffdcb9, 0xffe9be93, 0xff123456, 0x00ffdcb9]);
    let expected = [
        (0u32, 0x3f372eu32, 0x3a2f24u32),
        (1, 0xba1102, 0x681102),
        (2, 0x096509, 0x224202),
        (3, 0x2211b7, 0x221168),
    ];
    for (index, light, shade) in expected {
        let mut dst = filled(4, 1, &[0xee; 4]);
        src.draw_on_scaled_player(&mut dst, 0, 0, SCALE_ONE, SCALE_ONE, index);
        assert_eq!(grid(&dst), vec![light, shade, 0x123456, 0xee]);
    }
}
