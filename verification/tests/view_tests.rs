use softraster::background::{offset_of, Background};
use softraster::bitmap::Bitmap;
use softraster::color::BLACK;
use softraster::span::SCALE_ONE;
use softraster::tileflags::TileFlags;
use softraster::tilemap::{TileMap, TileSet, TileStruct};
use std::collections::BTreeMap;

fn solid(width: usize, height: usize, color: u32) -> Bitmap<'static> {
    let mut b = Bitmap::new(width, height);
    b.clear(color);
    b
}

fn tile(index: usize, color: u32) -> TileStruct {
    TileStruct { index, sprite: solid(2, 2, color), color: BLACK, flags: TileFlags::collision() }
}

fn rows(b: &Bitmap, names: &[(u32, char)]) -> Vec<String> {
    (0..b.height() as i32)
        .map(|y| {
            (0..b.width() as i32)
                .map(|x| {
                    let c = b.load_pixel(x, y);
                    names.iter().find(|(color, _)| *color == c).map(|(_, n)| *n).unwrap_or('?')
                })
                .collect()
        })
        .collect()
}

const A: u32 = 0xff0000a1;
const B: u32 = 0xff0000b2;
const E: u32 = 0xff0000ee;
const NAMES: [(u32, char); 4] = [(A, 'a'), (B, 'b'), (E, 'e'), (0, '.')];

fn level() -> (TileMap, TileSet) {
    let map = TileMap {
        tile_size: 2,
        width: 3,
        height: 1,
        tiles: vec![1, 2, 77],
        unsupported_tile: tile(0, E),
    };
    let mut tile_objs = BTreeMap::new();
    tile_objs.insert(1, tile(1, A));
    tile_objs.insert(2, tile(2, B));
    let set = TileSet {
        tiles: Vec::new(),
        tile_colors: Vec::new(),
        tile_types: Vec::new(),
        tile_objs,
        unique_tile_colors: Vec::new(),
        color_start: Vec::new(),
        brightness_low: Vec::new(),
        brightness: Vec::new(),
    };
    (map, set)
}

#[test]
fn editor_view_scales_tiles_by_the_zoom() {
    let (map, set) = level();
    let mut target = Bitmap::new(14, 5);
    map.editor_draw(&set, &mut target, (0, 0), 2 * SCALE_ONE);
    assert_eq!(
        rows(&target, &NAMES),
        vec!["aaaabbbbeeee..", "aaaabbbbeeee..", "aaaabbbbeeee..", "aaaabbbbeeee..", ".............."]
    );
    let mut target = Bitmap::new(8, 2);
    map.editor_draw(&set, &mut target, (0, 0), SCALE_ONE / 2);
    assert_eq!(rows(&target, &NAMES), vec!["abe.....", "........"]);
}

#[test]
fn editor_view_follows_the_camera() {
    let (map, set) = level();
    let mut target = Bitmap::new(8, 3);
    map.editor_draw(&set, &mut target, (1, 0), 2 * SCALE_ONE);
    assert_eq!(rows(&target, &NAMES), vec!["aabbbbee", "aabbbbee", "aabbbbee"]);
    let mut target = Bitmap::new(8, 3);
    map.editor_draw(&set, &mut target, (-3, -1), SCALE_ONE);
    assert_eq!(rows(&target, &NAMES), vec!["........", "...aabbe", "...aabbe"]);
    for camera in [(1000, 0), (0, 1000), (i32::MAX, i32::MAX), (i32::MIN, i32::MIN)] {
        let mut target = Bitmap::new(8, 3);
        map.editor_draw(&set, &mut target, camera, SCALE_ONE);
        assert_eq!(rows(&target, &NAMES), vec!["........"; 3]);
    }
}

#[test]
fn editor_view_shows_nothing_at_a_zoom_too_small() {
    let (map, set) = level();
    for zoom in [65, 0, -SCALE_ONE, i32::MIN] {
        let mut target = Bitmap::new(8, 3);
        map.editor_draw(&set, &mut target, (0, 0), zoom);
        assert_eq!(rows(&target, &NAMES), vec!["........"; 3]);
    }
}

#[test]
fn editor_view_at_a_great_zoom() {
    let (map, set) = level();
    let mut target = Bitmap::new(4, 2);
    map.editor_draw(&set, &mut target, (3, 0), i32::MAX);
    // the camera lies in the second tile, a world unit from its left edge
    assert_eq!(rows(&target, &NAMES), vec!["bbbb", "bbbb"]);
}

#[test]
fn layer_shift_wraps_and_drops_the_fraction() {
    assert_eq!(offset_of(100, 0, 7), 0);
    assert_eq!(offset_of(35, 1, 2), -1);
    assert_eq!(offset_of(-35, 1, 2), 1);
    assert_eq!(offset_of(25, 1, 2), 0);
    assert_eq!(offset_of(7, 5, 100), -3);
    assert_eq!(offset_of(2000, 5, 256), -232);
    assert_eq!(offset_of(5, 3, 0), 0);
    assert_eq!(offset_of(i32::MIN, 5, 1), 0);
}

/// A layer whose pixel `(x, y)` is opaque with `x + 1` in the red byte and
/// `y` in the green byte.
fn coded_layer(width: usize, height: usize) -> Bitmap<'static> {
    let mut b = Bitmap::new(width, height);
    for y in 0..height as i32 {
        for x in 0..width as i32 {
            b.plot(x, y, 0xff000000 | (((x + 1) as u32) << 16) | ((y as u32) << 8));
        }
    }
    b
}

fn lit(x: u32, y: u32) -> u32 {
    ((x + 1) << 16) | (y << 8)
}

#[test]
fn background_layers_are_laid_out_twice_each_way() {
    // a table value of 1032 is quartered to 258, and (258 * 255) >> 8 = 256
    // scales every channel by one
    let high = vec![1032u32; 256];
    let low = vec![0u32; 256];
    // the sides of the layer divide 65536, so that scale 1 samples it exactly
    let background = Background { layers: vec![coded_layer(2, 128)] };
    let mut screen = Bitmap::new(5, 14);
    screen.clear(0x99);
    background.draw(&mut screen, (0, 0), 0xffffffff, &low, &high, (0, 0));
    for y in 0..14u32 {
        let row = if y < 12 { y + 116 } else { y - 12 };
        let expected = vec![lit(0, row), lit(1, row), lit(0, row), lit(1, row), 0x99];
        let got: Vec<u32> = (0..5).map(|x| screen.load_pixel(x, y as i32)).collect();
        assert_eq!(got, expected, "row {}", y);
    }
}

#[test]
fn farther_layers_move_less() {
    let high = vec![1032u32; 256];
    let low = vec![0u32; 256];
    let mut hidden = Bitmap::new(2, 128);
    hidden.clear(0);
    let background = Background { layers: vec![hidden, coded_layer(2, 128)] };
    let mut screen = Bitmap::new(4, 1);
    screen.clear(0x99);
    // the second layer is shifted by a tenth of 35, wrapped to its width of 2
    background.draw(&mut screen, (35, 0), 0xffffffff, &low, &high, (0, 0));
    assert_eq!(screen.pixels(), &[lit(1, 116), lit(0, 116), lit(1, 116), 0x99][..]);
}
