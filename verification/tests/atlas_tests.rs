use softraster::atlas::{build_frame_list, build_tileset, extract_sprite_from_sheet, sheet_cell_id};
use softraster::bitmap::Bitmap;
use softraster::color::{BLACK, BLUE, GREEN, RED};
use softraster::sound::wang_hash;
use softraster::tileflags::TileFlags;

/// A sheet whose pixel `(x, y)` is opaque with `x` in the red byte and `y`
/// in the green byte, but for the pixel `(0, 0)`, which is transparent.
fn sheet(width: usize, height: usize) -> Bitmap<'static> {
    let mut b = Bitmap::new(width, height);
    for y in 0..height as i32 {
        for x in 0..width as i32 {
            if (x, y) != (0, 0) {
                b.plot(x, y, 0xff000000 | ((x as u32) << 16) | ((y as u32) << 8));
            }
        }
    }
    b
}

fn at(x: u32, y: u32) -> u32 {
    0xff000000 | (x << 16) | (y << 8)
}

#[test]
fn sprite_is_cut_out_of_the_sheet() {
    let icon = extract_sprite_from_sheet(&sheet(8, 8), 2, 3, 2, 2);
    assert_eq!((icon.width(), icon.height()), (2, 2));
    assert_eq!(icon.pixels(), &[at(2, 3), at(3, 3), at(2, 4), at(3, 4)][..]);
}

#[test]
fn sprite_cut_over_the_edge_is_padded_with_zero() {
    let icon = extract_sprite_from_sheet(&sheet(4, 4), 3, -1, 2, 3);
    assert_eq!(icon.pixels(), &[0, 0, at(3, 0), 0, at(3, 1), 0][..]);
    let icon = extract_sprite_from_sheet(&sheet(4, 4), 0, 0, 1, 1);
    assert_eq!(icon.pixels(), &[0][..]);
    let icon = extract_sprite_from_sheet(&sheet(4, 4), i32::MIN, i32::MAX, 1, 1);
    assert_eq!(icon.pixels(), &[0][..]);
}

#[test]
fn frame_list_cuts_one_sprite_per_coordinate() {
    let frames = build_frame_list(&sheet(8, 8), &[(0, 0), (4, 4), (6, 0)], (2, 1));
    assert_eq!(frames.len(), 3);
    assert_eq!(frames[0].pixels(), &[0, at(1, 0)][..]);
    assert_eq!(frames[1].pixels(), &[at(4, 4), at(5, 4)][..]);
    assert_eq!(frames[2].pixels(), &[at(6, 0), at(7, 0)][..]);
}

#[test]
fn sheet_cells_are_numbered_row_by_row() {
    assert_eq!(sheet_cell_id(0, 0, (8, 8), 64), 0);
    assert_eq!(sheet_cell_id(15, 7, (8, 8), 64), 1);
    assert_eq!(sheet_cell_id(0, 8, (8, 8), 64), 8);
    assert_eq!(sheet_cell_id(32, 16, (8, 8), 64), 20);
    assert_eq!(sheet_cell_id(10, 10, (4, 2), 10), 2 + 5 * 2);
}

#[test]
fn tileset_files_each_tile_under_its_sheet_cell() {
    let sheet = sheet(32, 16);
    let colors = vec![BLACK, RED, BLUE, GREEN];
    let starts = vec![(0, 0), (16, 0), (0, 8), (16, 8)];
    let shapes = vec![(0, 0), (4, 4)];
    let shape_flags = vec![TileFlags::collision(), TileFlags::spike()];
    let set = build_tileset(
        &sheet,
        colors.clone(),
        &starts,
        &shapes,
        shape_flags,
        (4, 4),
        vec![1, 2, 3],
        vec![4, 5],
    );
    assert_eq!(set.unique_tile_colors, colors);
    assert_eq!(set.brightness_low, vec![1, 2, 3]);
    assert_eq!(set.brightness, vec![4, 5]);
    // sheet cells are 4 by 4 and the sheet is 8 cells wide
    assert_eq!(set.color_start, vec![0, 4, 16, 20]);
    let ids: Vec<u64> = set.tile_objs.keys().copied().collect();
    assert_eq!(ids, vec![0, 4, 9, 13, 16, 20, 25, 29]);
    let plain = &set.tile_objs[&0];
    assert_eq!((plain.index, plain.color, plain.flags), (0, BLACK, TileFlags::collision()));
    assert_eq!(plain.sprite.load_pixel(0, 0), 0);
    assert_eq!(plain.sprite.load_pixel(3, 3), at(3, 3));
    let red_spike = &set.tile_objs[&13];
    assert_eq!(red_spike.index, 2 * 1 + 1);
    assert_eq!(red_spike.color, RED);
    assert_eq!(red_spike.flags, TileFlags::spike().union(TileFlags::red()));
    assert_eq!((red_spike.sprite.width(), red_spike.sprite.height()), (4, 4));
    assert_eq!(red_spike.sprite.load_pixel(0, 0), at(20, 4));
    assert_eq!(red_spike.sprite.load_pixel(3, 3), at(23, 7));
    assert_eq!(set.tile_objs[&16].flags, TileFlags::collision().union(TileFlags::blue()));
    assert_eq!(set.tile_objs[&29].flags, TileFlags::spike().union(TileFlags::green()));
    // the lists hold the tiles shape by shape, for each shape block by block
    assert_eq!(set.tile_colors, vec![BLACK, RED, BLUE, GREEN, BLACK, RED, BLUE, GREEN]);
    assert_eq!(set.tile_types[1], TileFlags::collision().union(TileFlags::red()));
    assert_eq!(set.tile_types[4], TileFlags::spike());
    assert_eq!(set.tiles.len(), 8);
    assert_eq!((set.tiles[5].width(), set.tiles[5].height()), (8, 8));
    assert_eq!(set.tiles[5].load_pixel(0, 0), at(20, 4));
    assert_eq!(set.tiles[5].load_pixel(7, 7), at(27, 11));
}

#[test]
fn tileset_keeps_the_later_of_two_tiles_with_one_id() {
    let sheet = sheet(16, 16);
    let set = build_tileset(
        &sheet,
        vec![BLACK, RED],
        &vec![(0, 0), (1, 1)],
        &vec![(0, 0)],
        vec![TileFlags::collision()],
        (8, 8),
        vec![],
        vec![],
    );
    assert_eq!(set.tile_objs.len(), 1);
    assert_eq!(set.tile_objs[&0].color, RED);
    assert_eq!(set.tile_objs[&0].sprite.load_pixel(0, 0), at(1, 1));
}

#[test]
fn duplicate_copies_the_buffer() {
    let original = sheet(3, 2);
    let mut copy = original.duplicate();
    assert_eq!(copy.pixels(), original.pixels());
    copy.plot(1, 1, 7);
    assert_eq!(original.load_pixel(1, 1), at(1, 1));
    assert_eq!(copy.load_pixel(1, 1), 7);
}

#[test]
fn pixels_mut_writes_through() {
    let mut b = Bitmap::new(2, 2);
    b.pixels_mut()[3] = 0xff00ff00;
    assert_eq!(b.load_pixel(1, 1), 0xff00ff00);
    let mut memory = vec![0u32; 6];
    {
        let mut view = Bitmap::new_borrowed(&mut memory, 2, 2, 3);
        view.pixels_mut()[4] = 9;
        assert_eq!(view.load_pixel(1, 1), 9);
        assert_eq!(view.stride(), 3);
    }
    assert_eq!(memory, vec![0, 0, 0, 0, 9, 0]);
}

#[test]
fn wang_hash_values() {
    assert_eq!(wang_hash(0), 0xc0a9496a);
    assert_eq!(wang_hash(1), 0x27922c9d);
    assert_eq!(wang_hash(61), 0);
    assert_eq!(wang_hash(12345), 0x0ddeec13);
    assert_eq!(wang_hash(0xffffffff), 0x70f499d3);
    assert_eq!(wang_hash(0xdeadbeef), 0x572e7c2d);
}
