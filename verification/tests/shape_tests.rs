use softraster::bitmap::Bitmap;

const INK: u32 = 0xff00aa00;

fn rows(b: &Bitmap) -> Vec<String> {
    (0..b.height() as i32)
        .map(|y| {
            (0..b.width() as i32)
                .map(|x| if b.load_pixel(x, y) == INK { '#' } else { '.' })
                .collect()
        })
        .collect()
}

#[test]
fn clear_fills_every_pixel() {
    let mut b = Bitmap::new(3, 2);
    b.clear(0xff010203);
    assert_eq!(b.pixels(), &[0xff010203u32; 6][..]);
}

#[test]
fn line_drops_the_fraction_of_each_step() {
    let mut b = Bitmap::new(4, 2);
    b.draw_line(0, 0, 3, 1, INK);
    assert_eq!(rows(&b), vec!["###.", "...#"]);
}

#[test]
fn line_of_one_point() {
    let mut b = Bitmap::new(3, 3);
    b.draw_line(1, 1, 1, 1, INK);
    assert_eq!(rows(&b), vec!["...", ".#.", "..."]);
}

#[test]
fn line_runs_backwards_and_off_the_grid() {
    let mut b = Bitmap::new(4, 1);
    b.draw_line(2, 0, -2, 0, INK);
    assert_eq!(rows(&b), vec!["###."]);
}

#[test]
fn line_rounds_towards_zero_left_of_the_grid() {
    // the middle step lies at x = -0.5, which rounds to column 0
    let mut b = Bitmap::new(2, 3);
    b.draw_line(-1, 0, 0, 2, INK);
    assert_eq!(rows(&b), vec!["..", "#.", "#."]);
}

#[test]
fn steep_line() {
    let mut b = Bitmap::new(3, 5);
    b.draw_line(2, 4, 0, 0, INK);
    // x positions: 2, 1.5, 1, 0.5, 0 from the bottom up
    assert_eq!(rows(&b), vec!["#..", "#..", ".#.", ".#.", "..#"]);
}

#[test]
fn filled_rectangle_includes_both_corners() {
    let mut b = Bitmap::new(5, 4);
    b.draw_rectangle(1, 1, 3, 2, true, INK);
    assert_eq!(rows(&b), vec![".....", ".###.", ".###.", "....."]);
}

#[test]
fn filled_rectangle_is_clipped() {
    let mut b = Bitmap::new(3, 3);
    b.draw_rectangle(-5, 1, 10, 7, true, INK);
    assert_eq!(rows(&b), vec!["...", "###", "###"]);
    let mut b = Bitmap::new(3, 3);
    b.draw_rectangle(i32::MIN, i32::MIN, i32::MAX, i32::MAX, true, INK);
    assert_eq!(rows(&b), vec!["###", "###", "###"]);
}

#[test]
fn filled_rectangle_with_swapped_corners_is_empty() {
    let mut b = Bitmap::new(3, 3);
    b.draw_rectangle(2, 2, 0, 0, true, INK);
    assert_eq!(rows(&b), vec!["...", "...", "..."]);
}

#[test]
fn outlined_rectangle() {
    let mut b = Bitmap::new(5, 5);
    b.draw_rectangle(1, 0, 4, 3, false, INK);
    assert_eq!(rows(&b), vec![".####", ".#..#", ".#..#", ".####", "....."]);
}

#[test]
fn square_leaves_out_the_greater_corner() {
    let mut b = Bitmap::new(5, 5);
    b.draw_square(3, 4, 1, 1, INK);
    assert_eq!(rows(&b), vec![".....", ".##..", ".##..", ".##..", "....."]);
}

#[test]
fn square_is_moved_into_the_grid() {
    let mut b = Bitmap::new(3, 3);
    b.draw_square(-4, -4, 9, 9, INK);
    // the corners become (0, 0) and (2, 2); the greater one is left out
    assert_eq!(rows(&b), vec!["##.", "##.", "..."]);
}

#[test]
fn square_on_an_empty_buffer_does_nothing() {
    let mut b = Bitmap::new(0, 0);
    b.draw_square(0, 0, 5, 5, INK);
    assert_eq!(b.pixels().len(), 0);
}
