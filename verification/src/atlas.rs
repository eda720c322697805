//! Building the tile atlas from a sprite sheet: sprites are cut out of the
//! sheet, and each tile definition is filed under the id of the sheet cell
//! that it was cut from.

use crate::bitmap::{lemma_repainted, Bitmap, BitmapView};
use crate::color::{BLUE, GREEN, RED};
use crate::composite::direct_paint;
use crate::paint::{Paint, Shader};
use crate::tileflags::TileFlags;
use crate::tilemap::{atlas_wf, TileSet, TileStruct};
use std::collections::BTreeMap;
use vstd::prelude::*;

verus! {

/// The side of the sprites of the atlas's sprite list.
pub const LISTED_TILE_SIZE: usize = 8;

/// The sprite of the given sides cut out of `sheet` with its top-left
/// corner at `(x, y)`: the visible pixels of the sheet there, and 0 where
/// the sheet has no visible pixel.
pub open spec fn cut_view(sheet: BitmapView, x: int, y: int, width: nat, height: nat)
    -> BitmapView {
    BitmapView::blank(width, height).repainted(
        direct_paint(sheet, BitmapView::blank(width, height), -x, -y, Paint::Copy),
    )
}

/// The flags of a tile of the colour `color` whose shape has the flags
/// `base`: a red, green or blue tile is gated by its colour.
pub open spec fn colored_flags(color: u32, base: TileFlags) -> TileFlags {
    if color == RED {
        base.union_spec(TileFlags { bits: crate::tileflags::RED })
    } else if color == BLUE {
        base.union_spec(TileFlags { bits: crate::tileflags::BLUE })
    } else if color == GREEN {
        base.union_spec(TileFlags { bits: crate::tileflags::GREEN })
    } else {
        base
    }
}

/// The id of the sheet cell that holds the sheet pixel `(x, y)`, for cells
/// of the sides `size` counted row by row.
pub open spec fn sheet_id(x: int, y: int, size: (usize, usize), sheet_width: int) -> int {
    x / (size.0 as int) + (y / (size.1 as int)) * (sheet_width / (size.0 as int))
}

/// What a tile definition is, its sprite taken by its content.
pub struct TileView {
    pub index: int,
    pub sprite: BitmapView,
    pub color: u32,
    pub flags: TileFlags,
}

impl View for TileStruct {
    type V = TileView;

    open spec fn view(&self) -> TileView {
        TileView {
            index: self.index as int,
            sprite: self.sprite@,
            color: self.color,
            flags: self.flags,
        }
    }
}

/// The definitions of an atlas by id, each taken by its content.
pub open spec fn atlas_view(atlas: Map<u64, TileStruct>) -> Map<u64, TileView> {
    Map::new(|id: u64| atlas.contains_key(id), |id: u64| atlas[id]@)
}

/// The tables from which an atlas is built: the sheet, one colour and one
/// starting point on the sheet for each block of tiles, the place of each
/// tile shape inside a block with the flags of the shape, and the sides of
/// a tile.
pub struct AtlasPlan {
    pub sheet: BitmapView,
    pub colors: Seq<u32>,
    pub starts: Seq<(i32, i32)>,
    pub shapes: Seq<(i32, i32)>,
    pub shape_flags: Seq<TileFlags>,
    pub size: (usize, usize),
}

impl AtlasPlan {
    /// The tables fit together: every block has a colour and every shape
    /// its flags, a tile has sides, and every tile lies at sheet
    /// coordinates that are not negative.
    pub open spec fn wf(self) -> bool {
        &&& self.sheet.wf()
        &&& self.starts.len() <= self.colors.len()
        &&& self.shapes.len() <= self.shape_flags.len()
        &&& 0 < self.size.0 <= i32::MAX
        &&& 0 < self.size.1 <= i32::MAX
        &&& self.size.0 * self.size.1 <= usize::MAX
        &&& self.shapes.len() * self.shapes.len() + self.starts.len() <= usize::MAX
        &&& forall|i: int|
            0 <= i < self.starts.len() ==> 0 <= (#[trigger] self.starts[i]).0 && 0
                <= self.starts[i].1
        &&& forall|i: int, j: int|
            0 <= i < self.starts.len() && 0 <= j < self.shapes.len() ==> 0 <= (
            #[trigger] self.starts[i]).0 + (#[trigger] self.shapes[j]).0 <= i32::MAX && 0
                <= self.starts[i].1 + self.shapes[j].1 <= i32::MAX
    }

    /// The sheet position of the shape `j` of the block `i`.
    pub open spec fn position(self, i: int, j: int) -> (int, int) {
        (self.starts[i].0 + self.shapes[j].0, self.starts[i].1 + self.shapes[j].1)
    }

    /// The id of the shape `j` of the block `i`.
    pub open spec fn id(self, i: int, j: int) -> u64 {
        sheet_id(
            self.position(i, j).0,
            self.position(i, j).1,
            self.size,
            self.sheet.width as int,
        ) as u64
    }

    /// The definition of the shape `j` of the block `i`.
    pub open spec fn definition(self, i: int, j: int) -> TileView {
        TileView {
            index: self.shapes.len() * j + i,
            sprite: cut_view(
                self.sheet,
                self.position(i, j).0,
                self.position(i, j).1,
                self.size.0 as nat,
                self.size.1 as nat,
            ),
            color: self.colors[i],
            flags: colored_flags(self.colors[i], self.shape_flags[j]),
        }
    }

    /// The definitions after the first `n` shapes of the block `i` were
    /// filed into `atlas`.
    pub open spec fn block_filed(self, atlas: Map<u64, TileView>, i: int, n: int) -> Map<
        u64,
        TileView,
    >
        decreases n,
    {
        if n <= 0 {
            atlas
        } else {
            self.block_filed(atlas, i, n - 1).insert(self.id(i, n - 1), self.definition(i, n - 1))
        }
    }

    /// The definitions after the first `n` blocks were filed, block by
    /// block. Where two tiles share an id the later one stays.
    pub open spec fn filed(self, n: int) -> Map<u64, TileView>
        decreases n,
    {
        if n <= 0 {
            Map::empty()
        } else {
            self.block_filed(self.filed(n - 1), n - 1, self.shapes.len() as int)
        }
    }
}

/// Cuts the sprite of the sides `w` and `h` out of `sheet` at `(x, y)`.
pub fn extract_sprite_from_sheet(sheet: &Bitmap, x: i32, y: i32, w: usize, h: usize) -> (icon:
    Bitmap<'static>)
    requires
        sheet.wf(),
        w <= i32::MAX,
        h <= i32::MAX,
        w * h <= usize::MAX,
    ensures
        icon.wf(),
        icon@ == cut_view(sheet@, x as int, y as int, w as nat, h as nat),
{
    let mut icon = Bitmap::new(w, h);
    let ghost blank = icon@;
    sheet.draw_direct(&mut icon, -(x as i64), -(y as i64), &Shader::Copy);
    proof {
        let paint = direct_paint(sheet@, blank, -(x as int), -(y as int), Paint::Copy);
        assert(icon@.repaints(blank, paint));
        lemma_repainted(blank, paint);
    }
    icon
}

/// Cuts one sprite of the sides `size` out of `sprite_sheet` at each of
/// `coords`.
pub fn build_frame_list(sprite_sheet: &Bitmap, coords: &[(i32, i32)], size: (usize, usize)) -> (
    frames: Vec<Bitmap<'static>>)
    requires
        sprite_sheet.wf(),
        size.0 <= i32::MAX,
        size.1 <= i32::MAX,
        size.0 * size.1 <= usize::MAX,
    ensures
        frames@.len() == coords@.len(),
        forall|i: int|
            0 <= i < coords@.len() ==> (#[trigger] frames@[i]).wf() && frames@[i]@ == cut_view(
                sprite_sheet@,
                coords@[i].0 as int,
                coords@[i].1 as int,
                size.0 as nat,
                size.1 as nat,
            ),
{
    let mut frames: Vec<Bitmap<'static>> = Vec::new();
    let mut i: usize = 0;
    while i < coords.len()
        invariant
            i <= coords@.len(),
            sprite_sheet.wf(),
            size.0 <= i32::MAX,
            size.1 <= i32::MAX,
            size.0 * size.1 <= usize::MAX,
            frames@.len() == i,
            forall|k: int|
                0 <= k < i ==> (#[trigger] frames@[k]).wf() && frames@[k]@ == cut_view(
                    sprite_sheet@,
                    coords@[k].0 as int,
                    coords@[k].1 as int,
                    size.0 as nat,
                    size.1 as nat,
                ),
        decreases coords@.len() - i,
    {
        let at = coords[i];
        let frame = extract_sprite_from_sheet(sprite_sheet, at.0, at.1, size.0, size.1);
        frames.push(frame);
        i += 1;
    }
    frames
}

/// The flags of a tile of the colour `color`, see [`colored_flags`].
pub fn flags_for_color(color: u32, base: TileFlags) -> (flags: TileFlags)
    ensures
        flags == colored_flags(color, base),
{
    if color == RED {
        base.union(TileFlags::red())
    } else if color == BLUE {
        base.union(TileFlags::blue())
    } else if color == GREEN {
        base.union(TileFlags::green())
    } else {
        base
    }
}

/// The id of a sheet cell, see [`sheet_id`].
pub fn sheet_cell_id(x: i32, y: i32, size: (usize, usize), sheet_width: usize) -> (id: u64)
    requires
        0 <= x,
        0 <= y,
        0 < size.0 <= i32::MAX,
        0 < size.1 <= i32::MAX,
        sheet_width <= i32::MAX,
    ensures
        id == sheet_id(x as int, y as int, size, sheet_width as int),
{
    let column: u64 = (x as u64) / (size.0 as u64);
    let row: u64 = (y as u64) / (size.1 as u64);
    let per_row: u64 = (sheet_width as u64) / (size.0 as u64);
    proof {
        vstd::arithmetic::div_mod::lemma_div_is_ordered_by_denominator(x as int, 1, size.0 as int);
        vstd::arithmetic::div_mod::lemma_div_is_ordered_by_denominator(y as int, 1, size.1 as int);
        vstd::arithmetic::div_mod::lemma_div_is_ordered_by_denominator(
            sheet_width as int,
            1,
            size.0 as int,
        );
        vstd::arithmetic::div_mod::lemma_div_pos_is_pos(x as int, size.0 as int);
        vstd::arithmetic::div_mod::lemma_div_pos_is_pos(y as int, size.1 as int);
        vstd::arithmetic::div_mod::lemma_div_pos_is_pos(sheet_width as int, size.0 as int);
        assert(0 <= row * per_row <= 0x7fff_ffff * 0x7fff_ffff) by (nonlinear_arith)
            requires
                0 <= row <= 0x7fff_ffff,
                0 <= per_row <= 0x7fff_ffff,
        ;
    }
    column + row * per_row
}

/// In a list filled pair by pair, a pair that comes earlier has the smaller
/// place.
pub proof fn lemma_pair_place(j0: int, i0: int, j: int, i: int, per_row: int)
    requires
        0 <= i0 < per_row,
        0 <= i <= per_row,
        0 <= j0,
        j0 < j || (j0 == j && i0 < i),
    ensures
        0 <= j0 * per_row + i0 < j * per_row + i,
{
    assert(0 <= j0 * per_row + i0 < j * per_row + i) by (nonlinear_arith)
        requires
            0 <= i0 < per_row,
            0 <= i <= per_row,
            0 <= j0,
            j0 < j || (j0 == j && i0 < i),
    {
        if j0 < j {
            assert((j0 + 1) * per_row <= j * per_row);
            assert((j0 + 1) * per_row == j0 * per_row + per_row);
        }
    }
}

/// Whether the three lists of an atlas hold, at the place of the shape `j`
/// of the block `i`, that tile: its sprite of [`LISTED_TILE_SIZE`] cut out
/// of the sheet, its colour and its flags.
pub open spec fn listed_at(
    plan: AtlasPlan,
    tiles: Seq<Bitmap<'static>>,
    tile_colors: Seq<u32>,
    tile_types: Seq<TileFlags>,
    j: int,
    i: int,
) -> bool {
    let place = j * plan.starts.len() + i;
    &&& 0 <= place < tiles.len()
    &&& place < tile_colors.len()
    &&& place < tile_types.len()
    &&& tile_colors[place] == plan.colors[i]
    &&& tile_types[place] == colored_flags(plan.colors[i], plan.shape_flags[j])
    &&& tiles[place].wf()
    &&& tiles[place]@ == cut_view(
        plan.sheet,
        plan.position(i, j).0,
        plan.position(i, j).1,
        LISTED_TILE_SIZE as nat,
        LISTED_TILE_SIZE as nat,
    )
}

/// The plan of a call of [`build_tileset`].
pub open spec fn plan_of(
    sheet: BitmapView,
    color_lst: Seq<u32>,
    color_start_pos: Seq<(i32, i32)>,
    rel_coords: Seq<(i32, i32)>,
    rel_tile_flags: Seq<TileFlags>,
    size: (usize, usize),
) -> AtlasPlan {
    AtlasPlan {
        sheet,
        colors: color_lst,
        starts: color_start_pos,
        shapes: rel_coords,
        shape_flags: rel_tile_flags,
        size,
    }
}

/// Builds the tile atlas. Each entry of `color_start_pos` is the corner,
/// on the sheet, of a block of tiles in the colour of the same place in
/// `color_lst`; each entry of `rel_coords` is the place of a tile shape
/// inside every block, with its flags in `rel_tile_flags`. Every tile is
/// cut out of the sheet and filed under the id of its sheet cell. The
/// lists of sprites, colours and flags hold the tiles shape by shape, and
/// for each shape block by block. The brightness tables are taken as given.
pub fn build_tileset(
    tileset_sheet: &Bitmap,
    color_lst: Vec<u32>,
    color_start_pos: &Vec<(i32, i32)>,
    rel_coords: &Vec<(i32, i32)>,
    rel_tile_flags: Vec<TileFlags>,
    size: (usize, usize),
    brightness_low: Vec<u32>,
    brightness: Vec<u32>,
) -> (set: TileSet)
    requires
        plan_of(
            tileset_sheet@,
            color_lst@,
            color_start_pos@,
            rel_coords@,
            rel_tile_flags@,
            size,
        ).wf(),
    ensures
        set.wf(),
        atlas_view(set.tile_objs@) == plan_of(
            tileset_sheet@,
            color_lst@,
            color_start_pos@,
            rel_coords@,
            rel_tile_flags@,
            size,
        ).filed(color_start_pos@.len() as int),
        set.unique_tile_colors == color_lst,
        set.brightness_low == brightness_low,
        set.brightness == brightness,
        set.color_start@.len() == color_start_pos@.len(),
        forall|i: int|
            0 <= i < color_start_pos@.len() ==> #[trigger] set.color_start@[i] == sheet_id(
                color_start_pos@[i].0 as int,
                color_start_pos@[i].1 as int,
                size,
                tileset_sheet@.width as int,
            ),
        set.tiles@.len() == rel_coords@.len() * color_start_pos@.len(),
        set.tile_colors@.len() == rel_coords@.len() * color_start_pos@.len(),
        set.tile_types@.len() == rel_coords@.len() * color_start_pos@.len(),
        forall|j: int, i: int|
            0 <= j < rel_coords@.len() && 0 <= i < color_start_pos@.len() ==> #[trigger] listed_at(
                plan_of(
                    tileset_sheet@,
                    color_lst@,
                    color_start_pos@,
                    rel_coords@,
                    rel_tile_flags@,
                    size,
                ),
                set.tiles@,
                set.tile_colors@,
                set.tile_types@,
                j,
                i,
            ),
{
    let ghost plan = plan_of(
        tileset_sheet@,
        color_lst@,
        color_start_pos@,
        rel_coords@,
        rel_tile_flags@,
        size,
    );
    let blocks: usize = color_start_pos.len();
    let shapes: usize = rel_coords.len();
    let mut tiles: Vec<Bitmap<'static>> = Vec::new();
    let mut tile_types: Vec<TileFlags> = Vec::new();
    let mut tile_colors: Vec<u32> = Vec::new();
    let mut j: usize = 0;
    while j < shapes
        invariant
            j <= shapes,
            blocks == color_start_pos@.len(),
            shapes == rel_coords@.len(),
            plan == plan_of(
                tileset_sheet@,
                color_lst@,
                color_start_pos@,
                rel_coords@,
                rel_tile_flags@,
                size,
            ),
            plan.wf(),
            tileset_sheet.wf(),
            tiles@.len() == j * blocks,
            tile_colors@.len() == j * blocks,
            tile_types@.len() == j * blocks,
            forall|j0: int, i0: int|
                0 <= j0 < j && 0 <= i0 < blocks ==> #[trigger] listed_at(
                    plan,
                    tiles@,
                    tile_colors@,
                    tile_types@,
                    j0,
                    i0,
                ),
        decreases shapes - j,
    {
        let mut i: usize = 0;
        while i < blocks
            invariant
                i <= blocks,
                j < shapes,
                blocks == color_start_pos@.len(),
                shapes == rel_coords@.len(),
                plan == plan_of(
                    tileset_sheet@,
                    color_lst@,
                    color_start_pos@,
                    rel_coords@,
                    rel_tile_flags@,
                    size,
                ),
                plan.wf(),
                tileset_sheet.wf(),
                tiles@.len() == j * blocks + i,
                tile_colors@.len() == j * blocks + i,
                tile_types@.len() == j * blocks + i,
                forall|j0: int, i0: int|
                    0 <= j0 && 0 <= i0 < blocks && (j0 < j || (j0 == j && i0 < i))
                        ==> #[trigger] listed_at(
                        plan,
                        tiles@,
                        tile_colors@,
                        tile_types@,
                        j0,
                        i0,
                    ),
            decreases blocks - i,
        {
            let start = color_start_pos[i];
            let shape = rel_coords[j];
            assert(0 <= plan.starts[i as int].0 + plan.shapes[j as int].0 <= i32::MAX);
            let x: i32 = start.0 + shape.0;
            let y: i32 = start.1 + shape.1;
            let color: u32 = color_lst[i];
            let ghost old_tiles = tiles@;
            let ghost old_colors = tile_colors@;
            let ghost old_types = tile_types@;
            tiles.push(
                extract_sprite_from_sheet(tileset_sheet, x, y, LISTED_TILE_SIZE, LISTED_TILE_SIZE),
            );
            tile_colors.push(color);
            tile_types.push(flags_for_color(color, rel_tile_flags[j]));
            proof {
                assert forall|j0: int, i0: int|
                    0 <= j0 && 0 <= i0 < blocks && (j0 < j || (j0 == j && i0 < i
                        + 1)) implies #[trigger] listed_at(
                    plan,
                    tiles@,
                    tile_colors@,
                    tile_types@,
                    j0,
                    i0,
                ) by {
                    lemma_pair_place(j0, i0, j as int, i + 1, blocks as int);
                    if j0 < j || i0 < i {
                        lemma_pair_place(j0, i0, j as int, i as int, blocks as int);
                        let place = j0 * blocks + i0;
                        assert(listed_at(plan, old_tiles, old_colors, old_types, j0, i0));
                        assert(tiles@[place] == old_tiles[place]);
                        assert(tile_colors@[place] == old_colors[place]);
                        assert(tile_types@[place] == old_types[place]);
                    }
                }
            }
            i += 1;
        }
        proof {
            assert((j + 1) * blocks == j * blocks + blocks) by (nonlinear_arith);
        }
        j += 1;
    }
    let mut tile_objs: BTreeMap<u64, TileStruct> = BTreeMap::new();
    let mut color_start: Vec<u64> = Vec::new();
    proof {
        assert(atlas_view(tile_objs@) =~= plan.filed(0));
    }
    let mut i: usize = 0;
    while i < blocks
        invariant
            i <= blocks,
            blocks == color_start_pos@.len(),
            shapes == rel_coords@.len(),
            plan == plan_of(
                tileset_sheet@,
                color_lst@,
                color_start_pos@,
                rel_coords@,
                rel_tile_flags@,
                size,
            ),
            plan.wf(),
            tileset_sheet.wf(),
            atlas_wf(tile_objs@),
            atlas_view(tile_objs@) == plan.filed(i as int),
            color_start@.len() == i,
            forall|k: int|
                0 <= k < i ==> #[trigger] color_start@[k] == sheet_id(
                    color_start_pos@[k].0 as int,
                    color_start_pos@[k].1 as int,
                    size,
                    tileset_sheet@.width as int,
                ),
        decreases blocks - i,
    {
        let start = color_start_pos[i];
        assert(0 <= plan.starts[i as int].0 && 0 <= plan.starts[i as int].1);
        color_start.push(sheet_cell_id(start.0, start.1, size, tileset_sheet.width()));
        let color: u32 = color_lst[i];
        let ghost block_start = atlas_view(tile_objs@);
        let mut j: usize = 0;
        while j < shapes
            invariant
                j <= shapes,
                i < blocks,
                blocks == color_start_pos@.len(),
                shapes == rel_coords@.len(),
                start == color_start_pos@[i as int],
                color == color_lst@[i as int],
                plan == plan_of(
                    tileset_sheet@,
                    color_lst@,
                    color_start_pos@,
                    rel_coords@,
                    rel_tile_flags@,
                    size,
                ),
                plan.wf(),
                tileset_sheet.wf(),
                atlas_wf(tile_objs@),
                atlas_view(tile_objs@) == plan.block_filed(block_start, i as int, j as int),
            decreases shapes - j,
        {
            let shape = rel_coords[j];
            assert(0 <= plan.starts[i as int].0 + plan.shapes[j as int].0 <= i32::MAX && 0
                <= plan.starts[i as int].1 + plan.shapes[j as int].1 <= i32::MAX);
            let x: i32 = start.0 + shape.0;
            let y: i32 = start.1 + shape.1;
            let sprite = extract_sprite_from_sheet(tileset_sheet, x, y, size.0, size.1);
            proof {
                assert(shapes * j + i <= shapes * shapes + blocks) by (nonlinear_arith)
                    requires
                        0 <= j < shapes,
                        0 <= i < blocks,
                ;
                assert(0 <= shapes * j) by (nonlinear_arith)
                    requires
                        0 <= j,
                        0 <= shapes,
                ;
            }
            let def = TileStruct {
                sprite,
                index: shapes * j + i,
                color,
                flags: flags_for_color(color, rel_tile_flags[j]),
            };
            let key: u64 = sheet_cell_id(x, y, size, tileset_sheet.width());
            let ghost old_objs = tile_objs@;
            assert(def@ == plan.definition(i as int, j as int));
            assert(key == plan.id(i as int, j as int));
            tile_objs.insert(key, def);
            proof {
                assert(atlas_view(tile_objs@) =~= atlas_view(old_objs).insert(
                    plan.id(i as int, j as int),
                    plan.definition(i as int, j as int),
                ));
            }
            j += 1;
        }
        i += 1;
    }
    TileSet {
        tiles,
        tile_colors,
        tile_types,
        tile_objs,
        unique_tile_colors: color_lst,
        color_start,
        brightness_low,
        brightness,
    }
}

} // verus!
