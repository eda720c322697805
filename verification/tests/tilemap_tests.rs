use softraster::bitmap::Bitmap;
use softraster::color::{BLACK, GREEN, RED};
use softraster::leveltext::LevelError;
use softraster::tileflags::TileFlags;
use softraster::tilemap::{flag_of_mask, floor_div, TileMap, TileSet, TileStruct};
use std::collections::BTreeMap;

fn solid(width: usize, height: usize, color: u32) -> Bitmap<'static> {
    let mut b = Bitmap::new(width, height);
    b.clear(color);
    b
}

fn stand_in() -> TileStruct {
    TileStruct { index: 0, sprite: solid(8, 8, 0xffabcdef), color: BLACK, flags: TileFlags::none() }
}

fn grid(width: u32, height: u32, tiles: Vec<i32>) -> TileMap {
    TileMap { tile_size: 8, width, height, tiles, unsupported_tile: stand_in() }
}

fn atlas(defs: Vec<(u64, TileStruct)>) -> TileSet {
    let mut tile_objs = BTreeMap::new();
    for (id, def) in defs {
        tile_objs.insert(id, def);
    }
    TileSet {
        tiles: Vec::new(),
        tile_colors: Vec::new(),
        tile_types: Vec::new(),
        tile_objs,
        unique_tile_colors: Vec::new(),
        color_start: Vec::new(),
        brightness_low: vec![0; 256],
        brightness: vec![256; 256],
    }
}

fn sample(map: &TileMap, set: &TileSet, x: i32, y: i32, mask: u32) -> TileFlags {
    map.sample_tile_type_ws((x, y), &set.tile_objs, &set.tile_types, &set.tile_colors, mask)
}

#[test]
fn floor_div_rounds_down() {
    assert_eq!(floor_div(17, 8), 2);
    assert_eq!(floor_div(16, 8), 2);
    assert_eq!(floor_div(-1, 8), -1);
    assert_eq!(floor_div(-8, 8), -1);
    assert_eq!(floor_div(-9, 8), -2);
    assert_eq!(floor_div(i32::MIN, 1), i32::MIN);
    assert_eq!(floor_div(i32::MIN, u32::MAX), -1);
    assert_eq!(floor_div(i32::MAX, u32::MAX), 0);
}

#[test]
fn world_to_tile_index_floors_each_coordinate() {
    let map = grid(3, 1, vec![-1, 5, -1]);
    assert_eq!(map.world_to_tile_index((0, 0)), (0, 0));
    assert_eq!(map.world_to_tile_index((15, 7)), (1, 0));
    assert_eq!(map.world_to_tile_index((-1, -8)), (-1, -1));
    assert_eq!(map.world_to_tile_index((-9, 8)), (-2, 1));
}

#[test]
fn plain_collision_tile_is_solid_under_every_mask() {
    let map = grid(3, 1, vec![-1, 5, -1]);
    let set = atlas(vec![(
        5,
        TileStruct {
            index: 5,
            sprite: solid(8, 8, 0xffffffff),
            color: BLACK,
            flags: TileFlags::collision(),
        },
    )]);
    for mask in [0u32, RED, GREEN, 0xffffffff, 0x00000001] {
        assert!(sample(&map, &set, 8, 0, mask).contains(TileFlags::collision()));
        assert!(sample(&map, &set, 15, 7, mask).contains(TileFlags::collision()));
        assert!(sample(&map, &set, 0, 0, mask).is_empty());
        assert!(sample(&map, &set, 7, 7, mask).is_empty());
        assert!(sample(&map, &set, 16, 0, mask).is_empty());
        assert!(sample(&map, &set, 23, 3, mask).is_empty());
    }
}

#[test]
fn red_gated_tile_counts_only_under_a_red_mask() {
    let map = grid(1, 1, vec![7]);
    let flags = TileFlags::collision().union(TileFlags::red());
    let set = atlas(vec![(
        7,
        TileStruct { index: 7, sprite: solid(8, 8, 0xffff0000), color: RED, flags },
    )]);
    assert!(sample(&map, &set, 3, 3, 0).is_empty());
    assert!(sample(&map, &set, 3, 3, GREEN).is_empty());
    assert!(sample(&map, &set, 3, 3, 0xff00ffff).is_empty());
    assert_eq!(sample(&map, &set, 3, 3, RED), flags);
    assert_eq!(sample(&map, &set, 3, 3, 0x00010000), flags);
    assert_eq!(sample(&map, &set, 3, 3, 0xffffffff), flags);
}

#[test]
fn sampling_outside_the_grid_gives_no_flags() {
    let map = grid(2, 2, vec![1, 1, 1, 1]);
    let set = atlas(vec![(
        1,
        TileStruct {
            index: 1,
            sprite: solid(8, 8, 0xffffffff),
            color: BLACK,
            flags: TileFlags::collision(),
        },
    )]);
    for mask in [0u32, RED, 0xffffffff] {
        assert!(sample(&map, &set, -1, 0, mask).is_empty());
        assert!(sample(&map, &set, 0, -1, mask).is_empty());
        assert!(sample(&map, &set, 16, 0, mask).is_empty());
        assert!(sample(&map, &set, 0, 16, mask).is_empty());
        assert!(sample(&map, &set, i32::MIN, i32::MAX, mask).is_empty());
        assert!(!sample(&map, &set, 15, 15, mask).is_empty());
    }
}

#[test]
fn id_without_a_definition_gives_no_flags() {
    let map = grid(3, 1, vec![9, -2, 1]);
    let set = atlas(vec![(
        1,
        TileStruct {
            index: 1,
            sprite: solid(8, 8, 0xffffffff),
            color: BLACK,
            flags: TileFlags::spike(),
        },
    )]);
    assert!(sample(&map, &set, 0, 0, 0xffffffff).is_empty());
    assert!(sample(&map, &set, 8, 0, 0xffffffff).is_empty());
    assert_eq!(sample(&map, &set, 16, 0, 0), TileFlags::spike());
}

#[test]
fn sample_world_pos_takes_the_mask_by_reference() {
    let map = grid(1, 1, vec![7]);
    let flags = TileFlags::spike().union(TileFlags::green());
    let set = atlas(vec![(
        7,
        TileStruct { index: 7, sprite: solid(8, 8, 0xff00ff00), color: GREEN, flags },
    )]);
    let got =
        map.sample_world_pos((0, 0), &set.tile_objs, &set.tile_types, &set.tile_colors, &GREEN);
    assert_eq!(got, flags);
    let got = map.sample_world_pos((0, 0), &set.tile_objs, &set.tile_types, &set.tile_colors, &RED);
    assert!(got.is_empty());
}

#[test]
fn mask_flag_is_the_first_channel_present() {
    assert_eq!(flag_of_mask(0), TileFlags::none());
    assert_eq!(flag_of_mask(0xff000000), TileFlags::none());
    assert_eq!(flag_of_mask(RED), TileFlags::red());
    assert_eq!(flag_of_mask(GREEN), TileFlags::green());
    assert_eq!(flag_of_mask(0xff0000ff), TileFlags::blue());
    assert_eq!(flag_of_mask(0xffffffff), TileFlags::red());
    assert_eq!(flag_of_mask(0x0000ffff), TileFlags::green());
}

fn pixel_rows(b: &Bitmap) -> Vec<Vec<u32>> {
    (0..b.height() as i32)
        .map(|y| (0..b.width() as i32).map(|x| b.load_pixel(x, y)).collect())
        .collect()
}

#[test]
fn editor_mode_copies_tiles_where_the_camera_sees_them() {
    let mut map = grid(2, 2, vec![1, -1, 9, 2]);
    map.tile_size = 2;
    map.unsupported_tile.sprite = solid(2, 2, 0xff0000ee);
    let set = atlas(vec![
        (
            1,
            TileStruct {
                index: 1,
                sprite: solid(2, 2, 0xff0000a1),
                color: BLACK,
                flags: TileFlags::collision(),
            },
        ),
        (
            2,
            TileStruct {
                index: 2,
                sprite: solid(2, 2, 0xff0000a2),
                color: RED,
                flags: TileFlags::collision().union(TileFlags::red()),
            },
        ),
    ]);
    let mut target = Bitmap::new(4, 4);
    map.draw(&set, &mut target, (0, 0), 0, 0, (0, 0), true);
    let (a, b, e) = (0xff0000a1, 0xff0000a2, 0xff0000ee);
    assert_eq!(
        pixel_rows(&target),
        vec![vec![a, a, 0, 0], vec![a, a, 0, 0], vec![e, e, b, b], vec![e, e, b, b]]
    );
    // the camera one unit right and down: everything moves up and left
    let mut target = Bitmap::new(4, 4);
    map.draw(&set, &mut target, (1, 1), 0, 0, (0, 0), true);
    assert_eq!(
        pixel_rows(&target),
        vec![vec![a, 0, 0, 0], vec![e, b, b, 0], vec![e, b, b, 0], vec![0, 0, 0, 0]]
    );
    // the camera left of and above the grid
    let mut target = Bitmap::new(4, 4);
    map.draw(&set, &mut target, (-3, -2), 0, 0, (0, 0), true);
    assert_eq!(
        pixel_rows(&target),
        vec![vec![0, 0, 0, 0], vec![0, 0, 0, 0], vec![0, 0, 0, a], vec![0, 0, 0, a]]
    );
    // the camera far away on either side
    for camera in [(100, 0), (0, 100), (-100, 0), (i32::MAX, i32::MAX), (i32::MIN, i32::MIN)] {
        let mut target = Bitmap::new(4, 4);
        map.draw(&set, &mut target, camera, 0, 0, (0, 0), true);
        assert_eq!(pixel_rows(&target), vec![vec![0; 4]; 4]);
    }
}

#[test]
fn lit_drawing_hides_gated_tiles_of_another_colour() {
    let mut map = grid(2, 1, vec![1, 2]);
    map.tile_size = 1;
    let mut set = atlas(vec![
        (
            1,
            TileStruct {
                index: 1,
                sprite: solid(1, 1, 0xff808080),
                color: BLACK,
                flags: TileFlags::collision(),
            },
        ),
        (
            2,
            TileStruct {
                index: 2,
                sprite: solid(1, 1, 0xffff0000),
                color: RED,
                flags: TileFlags::collision().union(TileFlags::red()),
            },
        ),
    ]);
    set.brightness_low = vec![0; 256];
    set.brightness = vec![0; 256];
    // no light at all: a plain tile is drawn at its floor 0x2f,
    // (0x80 * 0x2f) >> 8 = 0x17 per channel, and the gated tile is hidden
    let mut target = Bitmap::new(2, 1);
    target.clear(0xff111111);
    map.draw(&set, &mut target, (0, 0), GREEN, GREEN, (0, 0), false);
    assert_eq!(pixel_rows(&target), vec![vec![0x00171717, 0xff111111]]);
    // under the red mask the gated tile is lit at its floor 0x0f,
    // (0xff * 0x0f) >> 8 = 0x0e, and faded in by the key RED & RED:
    // red (0x11 * 0 + 0x0e * 255) >> 8 = 0x0d, green and blue keep
    // (0x11 * 255) >> 8 = 0x10
    let mut target = Bitmap::new(2, 1);
    target.clear(0xff111111);
    map.draw(&set, &mut target, (0, 0), RED, RED, (0, 0), false);
    assert_eq!(pixel_rows(&target), vec![vec![0x00171717, 0xff0d1010]]);
}

#[test]
fn parse_reads_rows_of_ids() {
    let map = TileMap::parse(b"-1,5,-1\n7,+8,009\n", stand_in()).unwrap();
    assert_eq!(map.width, 3);
    assert_eq!(map.height, 2);
    assert_eq!(map.tile_size, 8);
    assert_eq!(map.tiles, vec![-1, 5, -1, 7, 8, 9]);
}

#[test]
fn parse_ignores_carriage_returns_and_an_unfinished_last_line() {
    let map = TileMap::parse(b"1,2\r\n3,\r4\r\n5,6", stand_in()).unwrap();
    assert_eq!((map.width, map.height), (2, 2));
    assert_eq!(map.tiles, vec![1, 2, 3, 4]);
    let map = TileMap::parse(b"", stand_in()).unwrap();
    assert_eq!((map.width, map.height), (0, 0));
    let map = TileMap::parse(b"1,x", stand_in()).unwrap();
    assert_eq!((map.width, map.height), (0, 0));
}

fn parse_error(text: &[u8]) -> LevelError {
    match TileMap::parse(text, stand_in()) {
        Ok(_) => panic!("the text was accepted"),
        Err(e) => e,
    }
}

#[test]
fn parse_rejects_what_is_not_a_number() {
    assert_eq!(parse_error(b"1,2\n3,x\n"), LevelError::BadNumber { line: 1, field: 1 });
    assert_eq!(parse_error(b"\n"), LevelError::BadNumber { line: 0, field: 0 });
    assert_eq!(parse_error(b"1,,3\n"), LevelError::BadNumber { line: 0, field: 1 });
    assert_eq!(parse_error(b"1, 2\n"), LevelError::BadNumber { line: 0, field: 1 });
    assert_eq!(parse_error(b"-\n"), LevelError::BadNumber { line: 0, field: 0 });
    assert_eq!(parse_error(b"2147483648\n"), LevelError::BadNumber { line: 0, field: 0 });
    assert_eq!(parse_error(b"1\n-2147483649\n"), LevelError::BadNumber { line: 1, field: 0 });
    assert_eq!(parse_error(b"1,2,\n"), LevelError::BadNumber { line: 0, field: 2 });
}

#[test]
fn parse_accepts_the_ends_of_the_range() {
    let map = TileMap::parse(b"2147483647,-2147483648\n", stand_in()).unwrap();
    assert_eq!(map.tiles, vec![i32::MAX, i32::MIN]);
}

#[test]
fn parse_rejects_rows_of_different_lengths() {
    assert_eq!(parse_error(b"1,2,3\n4,5\n"), LevelError::RaggedRow { line: 1 });
    assert_eq!(parse_error(b"1\n2\n3,4\n"), LevelError::RaggedRow { line: 2 });
    // the first error in the text is the one reported
    assert_eq!(parse_error(b"1,2\n3\nx\n"), LevelError::RaggedRow { line: 1 });
    assert_eq!(parse_error(b"1,2\nx\n3\n"), LevelError::BadNumber { line: 1, field: 0 });
}

#[test]
fn serialize_writes_one_row_per_line() {
    let map = grid(3, 2, vec![-1, 5, -1, 0, 12, -2147483648]);
    assert_eq!(map.serialize(), b"-1,5,-1\n0,12,-2147483648\n".to_vec());
    assert_eq!(grid(0, 0, vec![]).serialize(), b"".to_vec());
    assert_eq!(grid(1, 1, vec![2147483647]).serialize(), b"2147483647\n".to_vec());
}

#[test]
fn serialized_grid_parses_back() {
    let tiles: Vec<i32> = (0..35).map(|i| (i * 7919) % 400 - 37).collect();
    let map = grid(7, 5, tiles.clone());
    let back = TileMap::parse(&map.serialize(), stand_in()).unwrap();
    assert_eq!((back.width, back.height), (7, 5));
    assert_eq!(back.tiles, tiles);
}
