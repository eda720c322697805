//! The tile atlas and the tile grid: a sparse map from tile ids to tile
//! definitions, a grid of ids over the world, sampling of a tile's flags
//! under the active colour mask, and the drawing of the visible part of
//! the grid.

use crate::bitmap::{lemma_repainted, Bitmap, BitmapView};
use crate::composite::{direct_paint, tile_light};
use crate::paint::{Light, Paint, Shader, FLOOR_GATED, FLOOR_PLAIN};
use crate::tileflags::{TileFlags, BLUE, GREEN, NONE, RED};
use std::collections::BTreeMap;
use vstd::prelude::*;

verus! {

/// The id that marks an empty cell of the grid.
pub const EMPTY_TILE: i32 = -1;

/// A tile definition: the id under which level data names it, its sprite,
/// the colour it is painted in, and its flags.
#[derive(Debug)]
pub struct TileStruct {
    pub index: usize,
    pub sprite: Bitmap<'static>,
    pub color: u32,
    pub flags: TileFlags,
}

/// The tile atlas: the tile definitions by id, with the tables by which
/// they were built, and the inner and outer brightness tables of the light.
#[derive(Debug)]
pub struct TileSet {
    pub tiles: Vec<Bitmap<'static>>,
    pub tile_colors: Vec<u32>,
    pub tile_types: Vec<TileFlags>,
    pub tile_objs: BTreeMap<u64, TileStruct>,
    pub unique_tile_colors: Vec<u32>,
    pub color_start: Vec<u64>,
    pub brightness_low: Vec<u32>,
    pub brightness: Vec<u32>,
}

/// The tile grid: `width * height` tile ids, row by row, each tile
/// `tile_size` world units wide and high, and the definition drawn for an
/// id that the atlas does not hold.
#[derive(Debug)]
pub struct TileMap {
    pub tile_size: u32,
    pub width: u32,
    pub height: u32,
    pub tiles: Vec<i32>,
    pub unsupported_tile: TileStruct,
}

/// Every definition of the atlas has a valid sprite.
pub open spec fn atlas_wf(atlas: Map<u64, TileStruct>) -> bool {
    forall|id: u64| #[trigger] atlas.contains_key(id) ==> atlas[id].sprite.wf()
}

/// The flags under which a definition counts when the colour mask `mask`
/// is active: none for a gated definition whose colour shares no colour
/// bit with the mask, and the definition's own flags in every other case.
pub open spec fn gated_flags(def: TileStruct, mask: u32) -> TileFlags {
    if def.flags.is_colored_spec() && (def.color & (mask & 0xffffff)) == 0 {
        TileFlags { bits: NONE }
    } else {
        def.flags
    }
}

/// The flag that stands for the colour mask `mask`: red, green or blue,
/// the first of them of which the mask holds any, or none.
pub open spec fn mask_flag(mask: u32) -> TileFlags {
    if (mask >> 16) & 0xff > 0 {
        TileFlags { bits: RED }
    } else if (mask >> 8) & 0xff > 0 {
        TileFlags { bits: GREEN }
    } else if mask & 0xff > 0 {
        TileFlags { bits: BLUE }
    } else {
        TileFlags { bits: NONE }
    }
}

/// The first tile index, along one axis, of a view that begins at the
/// world coordinate `camera`.
pub open spec fn first_visible(camera: int, tile_size: int) -> int {
    if camera < 0 {
        0
    } else {
        camera / tile_size
    }
}

/// One past the last tile index, along one axis, of a view of `extent`
/// world units that begins at `camera`, in a grid of `count` tiles.
pub open spec fn end_visible(camera: int, extent: int, tile_size: int, count: int) -> int {
    let end = (camera + extent + tile_size - 1) / tile_size;
    if end < 0 {
        0
    } else if end > count {
        count
    } else {
        end
    }
}

/// What a call of [`TileMap::draw`] was given besides the grid, the atlas
/// and the target.
pub struct DrawParams {
    pub camera: (i32, i32),
    pub color_mask: u32,
    pub lerped_color_mask: u32,
    pub aura_transl: (i32, i32),
    pub editor_mode: bool,
}

impl TileStruct {
    pub open spec fn wf(&self) -> bool {
        self.sprite.wf()
    }
}

impl TileSet {
    pub open spec fn wf(&self) -> bool {
        atlas_wf(self.tile_objs@)
    }
}

impl TileMap {
    /// The grid holds one id for each of its cells, its tiles have a size,
    /// and the stand-in definition is valid.
    pub open spec fn wf(&self) -> bool {
        &&& self.tile_size > 0
        &&& self.tiles@.len() == self.width * self.height
        &&& self.unsupported_tile.wf()
    }

    /// Whether `(tx, ty)` names a cell of the grid.
    pub open spec fn in_grid(&self, tx: int, ty: int) -> bool {
        0 <= tx < self.width && 0 <= ty < self.height
    }

    /// The id in the cell `(tx, ty)`.
    pub open spec fn cell(&self, tx: int, ty: int) -> i32 {
        self.tiles@[tx + ty * self.width]
    }

    /// The cell that holds the world point `(x, y)`: each coordinate
    /// divided by the tile size and rounded down.
    pub open spec fn tile_of(&self, x: int, y: int) -> (int, int) {
        (x / (self.tile_size as int), y / (self.tile_size as int))
    }

    /// The flags of the world point `(x, y)` under the colour mask `mask`:
    /// those of the definition that the point's cell names, as far as the
    /// mask lets them count; none outside the grid, in an empty cell and
    /// for an id without a definition.
    pub open spec fn flags_at(&self, atlas: Map<u64, TileStruct>, x: int, y: int, mask: u32)
        -> TileFlags {
        let (tx, ty) = self.tile_of(x, y);
        if !self.in_grid(tx, ty) {
            TileFlags { bits: NONE }
        } else if self.cell(tx, ty) < 0 || !atlas.contains_key(self.cell(tx, ty) as u64) {
            TileFlags { bits: NONE }
        } else {
            gated_flags(atlas[self.cell(tx, ty) as u64], mask)
        }
    }

    /// The definition drawn for the id `id`: none for an empty cell, the
    /// atlas's definition where it has one, and the stand-in otherwise.
    pub open spec fn definition_for(&self, atlas: Map<u64, TileStruct>, id: i32) -> Option<
        TileStruct,
    > {
        if id == EMPTY_TILE {
            None
        } else if id >= 0 && atlas.contains_key(id as u64) {
            Some(atlas[id as u64])
        } else {
            Some(self.unsupported_tile)
        }
    }

    /// The paint with which a definition is drawn, or none where it is not
    /// drawn at all. In editor mode every tile is copied as it is.
    /// Otherwise a gated tile is drawn only if it has the flag of the
    /// active colour mask, and every tile that is drawn is lit.
    pub open spec fn paint_for(def: TileStruct, atlas: &TileSet, params: DrawParams) -> Option<
        Paint,
    > {
        if params.editor_mode {
            Some(Paint::Copy)
        } else if def.flags.is_colored_spec() && !def.flags.intersects_spec(
            mask_flag(params.color_mask),
        ) {
            None
        } else {
            Some(
                Paint::Light(
                    tile_light(
                        atlas.brightness_low@,
                        atlas.brightness@,
                        params.aura_transl,
                        def.flags.is_colored_spec(),
                        def.color,
                        params.lerped_color_mask,
                    ),
                ),
            )
        }
    }

    /// The target after the cell `(tx, ty)` was drawn on `dst`: the
    /// cell's definition, if it is drawn, placed where the cell lies
    /// in the view.
    pub open spec fn cell_drawn(
        &self,
        atlas: &TileSet,
        dst: BitmapView,
        params: DrawParams,
        tx: int,
        ty: int,
    ) -> BitmapView {
        match self.definition_for(atlas.tile_objs@, self.cell(tx, ty)) {
            None => dst,
            Some(def) => match Self::paint_for(def, atlas, params) {
                None => dst,
                Some(paint) => dst.repainted(
                    direct_paint(
                        def.sprite@,
                        dst,
                        tx * self.tile_size - params.camera.0,
                        ty * self.tile_size - params.camera.1,
                        paint,
                    ),
                ),
            },
        }
    }

    /// The target after the cells `from .. to` of the row `ty` were drawn
    /// on `dst`, from left to right.
    pub open spec fn row_drawn(
        &self,
        atlas: &TileSet,
        dst: BitmapView,
        params: DrawParams,
        ty: int,
        from: int,
        to: int,
    ) -> BitmapView
        decreases to - from,
    {
        if to <= from {
            dst
        } else {
            self.cell_drawn(
                atlas,
                self.row_drawn(atlas, dst, params, ty, from, to - 1),
                params,
                to - 1,
                ty,
            )
        }
    }

    /// The target after the columns `left .. right` of the rows
    /// `from .. to` were drawn on `dst`, row by row from the top.
    pub open spec fn rows_drawn(
        &self,
        atlas: &TileSet,
        dst: BitmapView,
        params: DrawParams,
        left: int,
        right: int,
        from: int,
        to: int,
    ) -> BitmapView
        decreases to - from,
    {
        if to <= from {
            dst
        } else {
            self.row_drawn(
                atlas,
                self.rows_drawn(atlas, dst, params, left, right, from, to - 1),
                params,
                to - 1,
                left,
                right,
            )
        }
    }

    /// The target after the grid was drawn on `dst`: the cells that a view
    /// of the target's size, beginning at the camera, can show, clamped to
    /// the grid, drawn row by row.
    pub open spec fn drawn(&self, atlas: &TileSet, dst: BitmapView, params: DrawParams)
        -> BitmapView {
        self.rows_drawn(
            atlas,
            dst,
            params,
            first_visible(params.camera.0 as int, self.tile_size as int),
            end_visible(
                params.camera.0 as int,
                dst.width as int,
                self.tile_size as int,
                self.width as int,
            ),
            first_visible(params.camera.1 as int, self.tile_size as int),
            end_visible(
                params.camera.1 as int,
                dst.height as int,
                self.tile_size as int,
                self.height as int,
            ),
        )
    }

    /// The cell that holds the world point `position`.
    pub fn world_to_tile_index(&self, position: (i32, i32)) -> (cell: (i32, i32))
        requires
            self.tile_size > 0,
        ensures
            (cell.0 as int, cell.1 as int) == self.tile_of(position.0 as int, position.1 as int),
    {
        (floor_div(position.0, self.tile_size), floor_div(position.1, self.tile_size))
    }

    /// The flags of the world point `position` under the colour mask
    /// `color_mask`, see [`TileMap::flags_at`]. The tables of flags and
    /// colours are not consulted.
    pub fn sample_world_pos(
        &self,
        position: (i32, i32),
        tile_objs: &BTreeMap<u64, TileStruct>,
        tile_flags: &Vec<TileFlags>,
        tile_colors: &Vec<u32>,
        color_mask: &u32,
    ) -> (flags: TileFlags)
        requires
            self.wf(),
        ensures
            flags == self.flags_at(
                tile_objs@,
                position.0 as int,
                position.1 as int,
                *color_mask,
            ),
    {
        let cell = self.world_to_tile_index(position);
        if cell.0 < 0 || cell.1 < 0 || cell.0 as i64 >= self.width as i64 || cell.1 as i64
            >= self.height as i64 {
            return TileFlags::none();
        }
        let id: i32 = self.id_at(cell.0 as u32, cell.1 as u32);
        if id < 0 {
            return TileFlags::none();
        }
        let key: u64 = id as u64;
        match tile_objs.get(&key) {
            None => TileFlags::none(),
            Some(def) => {
                if def.flags.is_colored() && (def.color & (*color_mask & 0xffffff)) == 0 {
                    TileFlags::none()
                } else {
                    def.flags
                }
            },
        }
    }

    /// The flags of the world point `position` under the colour mask
    /// `color_mask`, see [`TileMap::flags_at`].
    pub fn sample_tile_type_ws(
        &self,
        position: (i32, i32),
        tile_objs: &BTreeMap<u64, TileStruct>,
        tile_flags: &Vec<TileFlags>,
        tile_colors: &Vec<u32>,
        color_mask: u32,
    ) -> (flags: TileFlags)
        requires
            self.wf(),
        ensures
            flags == self.flags_at(tile_objs@, position.0 as int, position.1 as int, color_mask),
    {
        self.sample_world_pos(position, tile_objs, tile_flags, tile_colors, &color_mask)
    }

    /// Draws the part of the grid that `target` can show when its top-left
    /// corner lies at the world point `camera`. Only the cells inside that
    /// view, clamped to the grid, are visited; empty cells are skipped and
    /// an id without a definition is drawn as the stand-in tile. In editor
    /// mode every tile is copied unlit; otherwise tiles are lit by the
    /// atlas's brightness tables laid at `aura_transl` and tinted by
    /// `lerped_color_mask`, and a gated tile is drawn only under the colour
    /// of `color_mask`.
    pub fn draw(
        &self,
        tile_set: &TileSet,
        target: &mut Bitmap,
        camera: (i32, i32),
        color_mask: u32,
        lerped_color_mask: u32,
        aura_transl: (i32, i32),
        editor_mode: bool,
    )
        requires
            self.wf(),
            tile_set.wf(),
            old(target).wf(),
        ensures
            final(target).wf(),
            final(target)@ == self.drawn(
                tile_set,
                old(target)@,
                DrawParams { camera, color_mask, lerped_color_mask, aura_transl, editor_mode },
            ),
    {
        let ghost before = target@;
        let ghost params = DrawParams {
            camera,
            color_mask,
            lerped_color_mask,
            aura_transl,
            editor_mode,
        };
        let left: u32 = first_tile(camera.0, self.tile_size);
        let right: u32 = end_tile(camera.0, target.width(), self.tile_size, self.width);
        let top: u32 = first_tile(camera.1, self.tile_size);
        let bottom: u32 = end_tile(camera.1, target.height(), self.tile_size, self.height);
        let shown: TileFlags = flag_of_mask(color_mask);
        if top >= bottom || left >= right {
            proof {
                self.lemma_nothing_drawn(
                    tile_set,
                    before,
                    params,
                    left as int,
                    right as int,
                    top as int,
                    bottom as int,
                );
            }
            return ;
        }
        let mut ty: u32 = top;
        while ty < bottom
            invariant
                top <= ty <= bottom,
                left < right,
                self.wf(),
                tile_set.wf(),
                target.wf(),
                before.wf(),
                target@.same_shape(before),
                shown == mask_flag(color_mask),
                left == first_visible(camera.0 as int, self.tile_size as int),
                right == end_visible(
                    camera.0 as int,
                    before.width as int,
                    self.tile_size as int,
                    self.width as int,
                ),
                top == first_visible(camera.1 as int, self.tile_size as int),
                bottom == end_visible(
                    camera.1 as int,
                    before.height as int,
                    self.tile_size as int,
                    self.height as int,
                ),
                params == (DrawParams {
                    camera,
                    color_mask,
                    lerped_color_mask,
                    aura_transl,
                    editor_mode,
                }),
                target@ == self.rows_drawn(
                    tile_set,
                    before,
                    params,
                    left as int,
                    right as int,
                    top as int,
                    ty as int,
                ),
            decreases bottom - ty,
        {
            let ghost row_start = target@;
            let mut tx: u32 = left;
            while tx < right
                invariant
                    left <= tx <= right,
                    top <= ty < bottom,
                    self.wf(),
                    tile_set.wf(),
                    target.wf(),
                    before.wf(),
                    target@.same_shape(before),
                    shown == mask_flag(color_mask),
                    left == first_visible(camera.0 as int, self.tile_size as int),
                    right == end_visible(
                        camera.0 as int,
                        before.width as int,
                        self.tile_size as int,
                        self.width as int,
                    ),
                    top == first_visible(camera.1 as int, self.tile_size as int),
                    bottom == end_visible(
                        camera.1 as int,
                        before.height as int,
                        self.tile_size as int,
                        self.height as int,
                    ),
                    params == (DrawParams {
                        camera,
                        color_mask,
                        lerped_color_mask,
                        aura_transl,
                        editor_mode,
                    }),
                    target@ == self.row_drawn(
                        tile_set,
                        row_start,
                        params,
                        ty as int,
                        left as int,
                        tx as int,
                    ),
                decreases right - tx,
            {
                self.draw_cell(
                    tile_set,
                    target,
                    tx,
                    ty,
                    shown,
                    Ghost(params),
                    camera,
                    lerped_color_mask,
                    aura_transl,
                    editor_mode,
                );
                assert(self.row_drawn(tile_set, row_start, params, ty as int, left as int, tx + 1)
                    == self.cell_drawn(
                    tile_set,
                    self.row_drawn(tile_set, row_start, params, ty as int, left as int, tx as int),
                    params,
                    tx as int,
                    ty as int,
                ));
                tx += 1;
            }
            assert(self.rows_drawn(
                tile_set,
                before,
                params,
                left as int,
                right as int,
                top as int,
                ty + 1,
            ) == self.row_drawn(
                tile_set,
                self.rows_drawn(
                    tile_set,
                    before,
                    params,
                    left as int,
                    right as int,
                    top as int,
                    ty as int,
                ),
                params,
                ty as int,
                left as int,
                right as int,
            ));
            ty += 1;
        }
    }

    /// Where the visible range holds no cell, drawing changes nothing.
    proof fn lemma_nothing_drawn(
        &self,
        atlas: &TileSet,
        dst: BitmapView,
        params: DrawParams,
        left: int,
        right: int,
        from: int,
        to: int,
    )
        requires
            to <= from || right <= left,
        ensures
            self.rows_drawn(atlas, dst, params, left, right, from, to) == dst,
        decreases to - from,
    {
        if to > from {
            self.lemma_nothing_drawn(atlas, dst, params, left, right, from, to - 1);
        }
    }

    /// Draws the cell `(tx, ty)` of the view, see [`TileMap::cell_drawn`].
    fn draw_cell(
        &self,
        tile_set: &TileSet,
        target: &mut Bitmap,
        tx: u32,
        ty: u32,
        shown: TileFlags,
        Ghost(params): Ghost<DrawParams>,
        camera: (i32, i32),
        lerped_color_mask: u32,
        aura_transl: (i32, i32),
        editor_mode: bool,
    )
        requires
            self.wf(),
            tile_set.wf(),
            old(target).wf(),
            shown == mask_flag(params.color_mask),
            params.camera == camera,
            params.lerped_color_mask == lerped_color_mask,
            params.aura_transl == aura_transl,
            params.editor_mode == editor_mode,
            first_visible(camera.0 as int, self.tile_size as int) <= tx < end_visible(
                camera.0 as int,
                old(target)@.width as int,
                self.tile_size as int,
                self.width as int,
            ),
            first_visible(camera.1 as int, self.tile_size as int) <= ty < end_visible(
                camera.1 as int,
                old(target)@.height as int,
                self.tile_size as int,
                self.height as int,
            ),
        ensures
            final(target).wf(),
            final(target)@.same_shape(old(target)@),
            final(target)@ == self.cell_drawn(
                tile_set,
                old(target)@,
                params,
                tx as int,
                ty as int,
            ),
    {
        let ghost prev = target@;
        proof {
            lemma_visible_tile(
                camera.0 as int,
                prev.width as int,
                self.tile_size as int,
                self.width as int,
                tx as int,
            );
            lemma_visible_tile(
                camera.1 as int,
                prev.height as int,
                self.tile_size as int,
                self.height as int,
                ty as int,
            );
        }
        let id: i32 = self.id_at(tx, ty);
        if id == EMPTY_TILE {
            return ;
        }
        let def: &TileStruct = if id >= 0 {
            let key: u64 = id as u64;
            match tile_set.tile_objs.get(&key) {
                Some(found) => found,
                None => &self.unsupported_tile,
            }
        } else {
            &self.unsupported_tile
        };
        assert(Some(*def) == self.definition_for(tile_set.tile_objs@, id));
        let x: i64 = (tx as i64) * (self.tile_size as i64) - camera.0 as i64;
        let y: i64 = (ty as i64) * (self.tile_size as i64) - camera.1 as i64;
        if editor_mode {
            def.sprite.draw_direct(target, x, y, &Shader::Copy);
            proof {
                let paint = direct_paint(def.sprite@, prev, x as int, y as int, Paint::Copy);
                assert(target@.repaints(prev, paint));
                lemma_repainted(prev, paint);
            }
        } else {
            let is_colored: bool = def.flags.is_colored();
            if is_colored && !def.flags.intersects(shown) {
                return ;
            }
            let light = Light {
                low: tile_set.brightness_low.as_slice(),
                high: tile_set.brightness.as_slice(),
                origin_x: aura_transl.0,
                origin_y: aura_transl.1,
                mask: lerped_color_mask,
                floor: if is_colored {
                    FLOOR_GATED
                } else {
                    FLOOR_PLAIN
                },
                quartered: false,
                gate: if is_colored {
                    Some(lerped_color_mask & def.color)
                } else {
                    None
                },
            };
            let shader = Shader::Light(light);
            def.sprite.draw_direct(target, x, y, &shader);
            proof {
                let paint = direct_paint(def.sprite@, prev, x as int, y as int, shader@);
                assert(target@.repaints(prev, paint));
                lemma_repainted(prev, paint);
            }
        }
    }

    /// The id in the cell `(tx, ty)`.
    pub fn id_at(&self, tx: u32, ty: u32) -> (id: i32)
        requires
            self.wf(),
            self.in_grid(tx as int, ty as int),
        ensures
            id == self.cell(tx as int, ty as int),
    {
        let count: usize = self.tiles.len();
        proof {
            lemma_cell_in_bounds(self.width as int, self.height as int, tx as int, ty as int);
            assert(count == self.width * self.height);
        }
        self.tiles[tx as usize + (ty as usize) * (self.width as usize)]
    }
}

/// A point outside the grid has no flags, whatever the colour mask.
pub proof fn lemma_outside_grid_has_no_flags(
    grid: &TileMap,
    atlas: Map<u64, TileStruct>,
    x: int,
    y: int,
    mask: u32,
)
    requires
        !grid.in_grid(grid.tile_of(x, y).0, grid.tile_of(x, y).1),
    ensures
        grid.flags_at(atlas, x, y, mask).bits == NONE,
{
}

/// An empty cell, and a cell whose id has no definition, has no flags,
/// whatever the colour mask.
pub proof fn lemma_undefined_tile_has_no_flags(
    grid: &TileMap,
    atlas: Map<u64, TileStruct>,
    x: int,
    y: int,
    mask: u32,
)
    requires
        grid.in_grid(grid.tile_of(x, y).0, grid.tile_of(x, y).1),
        grid.cell(grid.tile_of(x, y).0, grid.tile_of(x, y).1) < 0 || !atlas.contains_key(
            grid.cell(grid.tile_of(x, y).0, grid.tile_of(x, y).1) as u64,
        ),
    ensures
        grid.flags_at(atlas, x, y, mask).bits == NONE,
{
}

/// The flags of a tile that no colour gates are never held back: the point
/// has the definition's own flags under every colour mask, zero included.
pub proof fn lemma_plain_tile_keeps_flags(
    grid: &TileMap,
    atlas: Map<u64, TileStruct>,
    x: int,
    y: int,
    mask: u32,
)
    requires
        grid.in_grid(grid.tile_of(x, y).0, grid.tile_of(x, y).1),
        grid.cell(grid.tile_of(x, y).0, grid.tile_of(x, y).1) >= 0,
        atlas.contains_key(grid.cell(grid.tile_of(x, y).0, grid.tile_of(x, y).1) as u64),
        !atlas[grid.cell(
            grid.tile_of(x, y).0,
            grid.tile_of(x, y).1,
        ) as u64].flags.is_colored_spec(),
    ensures
        grid.flags_at(atlas, x, y, mask) == atlas[grid.cell(
            grid.tile_of(x, y).0,
            grid.tile_of(x, y).1,
        ) as u64].flags,
{
}

/// A red-gated definition, one with the red flag and painted red, has no
/// flags under a colour mask without red bits, and all its own flags,
/// whichever they are, under a mask with any red bit.
pub proof fn lemma_red_gated_flags(def: TileStruct, mask: u32)
    requires
        def.flags.contains_spec(TileFlags { bits: RED }),
        def.color == crate::color::RED,
    ensures
        mask & 0xff0000 == 0 ==> gated_flags(def, mask).bits == NONE,
        mask & 0xff0000 != 0 ==> gated_flags(def, mask) == def.flags,
{
    let bits: u32 = def.flags.bits;
    assert(bits & 0x4 == 0x4 ==> bits & 0x1c != 0) by (bit_vector);
    assert((0xffff0000u32 & (mask & 0xffffff) == 0) <==> (mask & 0xff0000 == 0)) by (bit_vector);
}

/// At a point whose cell names a red-gated definition, sampling gives no
/// flags while the colour mask has no red bit and the definition's own
/// flags as soon as it has one.
pub proof fn lemma_red_gated_tile(
    grid: &TileMap,
    atlas: Map<u64, TileStruct>,
    x: int,
    y: int,
    mask: u32,
)
    requires
        grid.in_grid(grid.tile_of(x, y).0, grid.tile_of(x, y).1),
        grid.cell(grid.tile_of(x, y).0, grid.tile_of(x, y).1) >= 0,
        atlas.contains_key(grid.cell(grid.tile_of(x, y).0, grid.tile_of(x, y).1) as u64),
        atlas[grid.cell(grid.tile_of(x, y).0, grid.tile_of(x, y).1) as u64].flags.contains_spec(
            TileFlags { bits: RED },
        ),
        atlas[grid.cell(grid.tile_of(x, y).0, grid.tile_of(x, y).1) as u64].color
            == crate::color::RED,
    ensures
        mask & 0xff0000 == 0 ==> grid.flags_at(atlas, x, y, mask).bits == NONE,
        mask & 0xff0000 != 0 ==> grid.flags_at(atlas, x, y, mask) == atlas[grid.cell(
            grid.tile_of(x, y).0,
            grid.tile_of(x, y).1,
        ) as u64].flags,
{
    lemma_red_gated_flags(
        atlas[grid.cell(grid.tile_of(x, y).0, grid.tile_of(x, y).1) as u64],
        mask,
    );
}

/// A cell of a grid has a place among its `width * height` ids.
pub proof fn lemma_cell_in_bounds(width: int, height: int, tx: int, ty: int)
    requires
        0 <= tx < width,
        0 <= ty < height,
    ensures
        0 <= ty * width,
        0 <= tx + ty * width < width * height,
{
    assert(0 <= ty * width && tx + ty * width < width * height) by (nonlinear_arith)
        requires
            0 <= tx < width,
            0 <= ty < height,
    {
        assert(ty * width <= (height - 1) * width);
        assert((height - 1) * width == width * height - width);
    }
}

/// A tile of the visible range lies, on the target, less than a tile before
/// its first pixel and before its end, and inside the grid.
pub proof fn lemma_visible_tile(camera: int, extent: int, tile_size: int, count: int, t: int)
    requires
        tile_size > 0,
        0 <= extent,
        first_visible(camera, tile_size) <= t < end_visible(camera, extent, tile_size, count),
    ensures
        0 <= t < count,
        -tile_size < t * tile_size - camera < extent,
{
    let end: int = (camera + extent + tile_size - 1) / tile_size;
    vstd::arithmetic::div_mod::lemma_fundamental_div_mod(camera + extent + tile_size - 1, tile_size);
    vstd::arithmetic::div_mod::lemma_mod_bound(camera + extent + tile_size - 1, tile_size);
    assert(t * tile_size <= camera + extent - 1) by (nonlinear_arith)
        requires
            t <= end - 1,
            tile_size > 0,
            tile_size * end <= camera + extent + tile_size - 1,
    ;
    if camera >= 0 {
        let first: int = camera / tile_size;
        vstd::arithmetic::div_mod::lemma_fundamental_div_mod(camera, tile_size);
        vstd::arithmetic::div_mod::lemma_mod_bound(camera, tile_size);
        assert(t * tile_size > camera - tile_size) by (nonlinear_arith)
            requires
                t >= first,
                tile_size > 0,
                camera == tile_size * first + camera % tile_size,
                camera % tile_size < tile_size,
        ;
        vstd::arithmetic::div_mod::lemma_div_pos_is_pos(camera, tile_size);
    } else {
        assert(t * tile_size >= 0) by (nonlinear_arith)
            requires
                t >= 0,
                tile_size > 0,
        ;
    }
}

/// The first visible tile index, see [`first_visible`].
fn first_tile(camera: i32, tile_size: u32) -> (t: u32)
    requires
        tile_size > 0,
    ensures
        t == first_visible(camera as int, tile_size as int),
{
    if camera < 0 {
        0
    } else {
        proof {
            vstd::arithmetic::div_mod::lemma_div_pos_is_pos(camera as int, tile_size as int);
            vstd::arithmetic::div_mod::lemma_div_is_ordered_by_denominator(
                camera as int,
                1,
                tile_size as int,
            );
        }
        ((camera as u64) / (tile_size as u64)) as u32
    }
}

/// One past the last visible tile index, see [`end_visible`].
fn end_tile(camera: i32, extent: usize, tile_size: u32, count: u32) -> (t: u32)
    requires
        tile_size > 0,
        extent <= i32::MAX,
    ensures
        t == end_visible(camera as int, extent as int, tile_size as int, count as int),
{
    let reach: i64 = camera as i64 + extent as i64 + tile_size as i64 - 1;
    if reach < 0 {
        proof {
            vstd::arithmetic::div_mod::lemma_fundamental_div_mod(reach as int, tile_size as int);
            vstd::arithmetic::div_mod::lemma_mod_bound(reach as int, tile_size as int);
            assert((reach as int) / (tile_size as int) < 0) by (nonlinear_arith)
                requires
                    reach < 0,
                    tile_size > 0,
                    reach == tile_size * ((reach as int) / (tile_size as int)) + (reach as int) % (
                    tile_size as int),
                    0 <= (reach as int) % (tile_size as int),
            ;
        }
        0
    } else {
        proof {
            vstd::arithmetic::div_mod::lemma_div_pos_is_pos(reach as int, tile_size as int);
        }
        let end: i64 = reach / (tile_size as i64);
        if end > count as i64 {
            count
        } else {
            end as u32
        }
    }
}

/// The flag that stands for a colour mask, see [`mask_flag`].
pub fn flag_of_mask(mask: u32) -> (f: TileFlags)
    ensures
        f == mask_flag(mask),
{
    if (mask >> 16) & 0xff > 0 {
        TileFlags::red()
    } else if (mask >> 8) & 0xff > 0 {
        TileFlags::green()
    } else if mask & 0xff > 0 {
        TileFlags::blue()
    } else {
        TileFlags::none()
    }
}

/// The quotient of `v` by the positive `d`, rounded down.
pub fn floor_div(v: i32, d: u32) -> (q: i32)
    requires
        d > 0,
    ensures
        q == (v as int) / (d as int),
{
    let wide: i64 = v as i64;
    let by: i64 = d as i64;
    if wide >= 0 {
        (wide / by) as i32
    } else {
        let up: i64 = (-wide + by - 1) / by;
        proof {
            let n: int = -wide as int;
            let q: int = (n + by - 1) / (by as int);
            vstd::arithmetic::div_mod::lemma_fundamental_div_mod(n + by - 1, by as int);
            vstd::arithmetic::div_mod::lemma_mod_bound(n + by - 1, by as int);
            let r: int = (n + by - 1) % (by as int);
            assert(n + by - 1 == by * q + r);
            assert(wide as int == (-q) * by + (by - 1 - r)) by (nonlinear_arith)
                requires
                    n == -wide,
                    n + by - 1 == by * q + r,
            ;
            vstd::arithmetic::div_mod::lemma_fundamental_div_mod_converse(
                wide as int,
                by as int,
                -q,
                by - 1 - r,
            );
            assert(0 <= q <= n) by (nonlinear_arith)
                requires
                    n + by - 1 == by * q + r,
                    0 <= r < by,
                    n > 0,
                    by >= 1,
            ;
        }
        (-up) as i32
    }
}

} // verus!
