use softraster::bitmap::Bitmap;

const SENTINEL: u32 = 0x0badf00d;

fn sentinel_buffer(width: usize, height: usize) -> Bitmap<'static> {
    let mut b = Bitmap::new(width, height);
    b.clear(SENTINEL);
    b
}

fn painted(b: &Bitmap, x: i32, y: i32) -> bool {
    b.load_pixel(x, y) != SENTINEL
}

/// Draws the two halves of the square with the top-left corner `(x0, y0)`
/// and the given side (all in sixteenths of a pixel), each into a buffer of
/// its own, and counts for every pixel how many halves painted it.
fn halves_cover(x0: i32, y0: i32, side: i32, size: usize) -> Vec<u32> {
    let a = (x0, y0);
    let b = (x0 + side, y0);
    let c = (x0 + side, y0 + side);
    let d = (x0, y0 + side);
    let mut first = sentinel_buffer(size, size);
    let mut second = sentinel_buffer(size, size);
    // both halves wind the way the rasteriser fills; they share the diagonal a-c
    first.draw_triangle(a, c, b, 0xff0000ff);
    second.draw_triangle(a, d, c, 0xff00ff00);
    let mut counts = Vec::new();
    for y in 0..size as i32 {
        for x in 0..size as i32 {
            counts.push(painted(&first, x, y) as u32 + painted(&second, x, y) as u32);
        }
    }
    counts
}

fn ceil16(v: i32) -> i32 {
    (v + 15).div_euclid(16)
}

fn expect_square(x0: i32, y0: i32, side: i32, size: usize) {
    let counts = halves_cover(x0, y0, side, size);
    for y in 0..size as i32 {
        for x in 0..size as i32 {
            let inside = ceil16(x0) <= x
                && x < ceil16(x0 + side)
                && ceil16(y0) <= y
                && y < ceil16(y0 + side);
            let expected = if inside { 1 } else { 0 };
            assert_eq!(
                counts[(x + y * size as i32) as usize],
                expected,
                "pixel ({}, {}) of the square at ({}, {})",
                x,
                y,
                x0,
                y0
            );
        }
    }
}

#[test]
fn unit_square_halves_paint_each_pixel_once() {
    // a square of one pixel at positions off the pixel grid
    expect_square(16 * 2 + 5, 16 * 3 + 7, 16, 8);
    expect_square(16 * 1 + 1, 16 * 1 + 15, 16, 8);
    expect_square(16 * 4 + 9, 16 * 0 + 3, 16, 8);
    expect_square(16 * 5 + 13, 16 * 5 + 13, 16, 8);
}

#[test]
fn large_square_halves_paint_each_pixel_once() {
    expect_square(16 * 1 + 3, 16 * 2 + 11, 16 * 5, 10);
    expect_square(7, 9, 16 * 6 + 5, 10);
    expect_square(16 * 2, 16 * 2, 16 * 4, 10);
}

#[test]
fn square_halves_are_clipped_to_the_buffer() {
    expect_square(-16 * 2 - 5, -16 * 1 - 3, 16 * 6, 6);
    expect_square(16 * 3 + 2, 16 * 4 + 1, 16 * 10, 6);
}

#[test]
fn triangle_wound_the_other_way_paints_nothing() {
    let mut b = sentinel_buffer(8, 8);
    b.draw_triangle((0, 0), (16 * 6, 0), (0, 16 * 6), 0xff123456);
    for y in 0..8 {
        for x in 0..8 {
            assert!(!painted(&b, x, y));
        }
    }
}

#[test]
fn triangle_fills_exact_pixels() {
    let mut b = sentinel_buffer(4, 4);
    // right triangle with the right angle at the origin, legs of four pixels
    b.draw_triangle((0, 0), (0, 64), (64, 0), 0xff123456);
    let rows: Vec<Vec<bool>> =
        (0..4).map(|y| (0..4).map(|x| painted(&b, x, y)).collect()).collect();
    assert_eq!(
        rows,
        vec![
            vec![true, true, true, true],
            vec![true, true, true, false],
            vec![true, true, false, false],
            vec![true, false, false, false],
        ]
    );
    assert_eq!(b.load_pixel(0, 0), 0xff123456);
}

#[test]
fn triangle_with_extreme_vertices_does_not_overflow() {
    let mut b = sentinel_buffer(4, 4);
    // everything below the diagonal from the far top-left to the far bottom-right
    b.draw_triangle((i32::MIN, i32::MIN), (i32::MIN, i32::MAX), (i32::MAX, i32::MAX), 0xff000001);
    for y in 0..4 {
        for x in 0..4 {
            assert_eq!(painted(&b, x, y), y > x);
        }
    }
}
