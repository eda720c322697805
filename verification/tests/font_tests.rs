use softraster::bitmap::Bitmap;
use softraster::font::{slot, Font, Glyph};

const INK: u32 = 0xffeeeeee;
const PAPER: u32 = 0xff444444;

fn glyph(rows: &[&str]) -> Glyph {
    rows.iter().map(|row| row.chars().map(|c| c == '#').collect()).collect()
}

/// A font with four glyphs: 0 blank, 1 for `a`, 2 for the micro sign,
/// 3 for everything unsupported.
fn font() -> Font {
    let mut translation = vec![0usize; 256];
    translation['a' as usize] = 1;
    translation[254] = 2;
    translation[255] = 3;
    let data = vec![
        glyph(&["..", ".."]),
        glyph(&["##.", "#.."]),
        glyph(&["#"]),
        glyph(&["#.#"]),
    ];
    Font::new(translation, data).unwrap()
}

fn rows(b: &Bitmap) -> Vec<String> {
    (0..b.height() as i32)
        .map(|y| {
            (0..b.width() as i32)
                .map(|x| match b.load_pixel(x, y) {
                    INK => '#',
                    0 => 's',
                    PAPER => '.',
                    _ => '?',
                })
                .collect()
        })
        .collect()
}

fn paper(width: usize, height: usize) -> Bitmap<'static> {
    let mut b = Bitmap::new(width, height);
    b.clear(PAPER);
    b
}

#[test]
fn slots_fold_case_and_catch_the_rest() {
    assert_eq!(slot('a'), 97);
    assert_eq!(slot('A'), 97);
    assert_eq!(slot('Z'), 122);
    assert_eq!(slot('@'), 64);
    assert_eq!(slot('['), 91);
    assert_eq!(slot('0'), 48);
    assert_eq!(slot('\u{7f}'), 127);
    assert_eq!(slot('\u{b5}'), 254);
    assert_eq!(slot('\u{3bc}'), 254);
    assert_eq!(slot('\u{e9}'), 255);
    assert_eq!(slot('\u{80}'), 255);
}

#[test]
fn font_needs_a_full_table_of_known_glyphs() {
    assert!(Font::new(vec![0; 255], vec![glyph(&["#"])]).is_none());
    assert!(Font::new(vec![0; 256], vec![]).is_none());
    let mut translation = vec![0usize; 256];
    translation[200] = 1;
    assert!(Font::new(translation, vec![glyph(&["#"])]).is_none());
    assert!(Font::new(vec![0; 256], vec![glyph(&["#"])]).is_some());
}

#[test]
fn glyph_is_drawn_with_its_shadow() {
    let mut b = paper(5, 4);
    b.draw_str(&font(), "a", 1, 0, INK);
    // dots at (1,0) (2,0) (1,1); shadows one down and right, where no dot is
    assert_eq!(rows(&b), vec![".##..", ".#ss.", "..s..", "....."]);
}

#[test]
fn characters_advance_by_six_pixels() {
    let mut b = paper(14, 2);
    b.draw_str(&font(), "A\u{3bc}\u{e9}", 0, 0, INK);
    assert_eq!(rows(&b), vec!["##....#.....#.", "#ss....s.....s"]);
}

#[test]
fn text_is_clipped_and_blank_glyphs_draw_nothing() {
    let mut b = paper(3, 2);
    b.draw_str(&font(), "  a", -13, 0, INK);
    // the third character starts at x = -1: its first column is cut off
    assert_eq!(rows(&b), vec!["#..", "ss."]);
    let mut b = paper(3, 2);
    b.draw_str(&font(), "", 0, 0, INK);
    b.draw_str(&font(), "a", i32::MAX, i32::MIN, INK);
    b.draw_str(&font(), "a", i32::MIN, i32::MAX, INK);
    assert_eq!(rows(&b), vec!["...", "..."]);
}
