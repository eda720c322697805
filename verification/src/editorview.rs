//! The zoomed view of the tile grid that the level editor shows: every
//! tile unlit, scaled by the editor's zoom.

use crate::bitmap::{lemma_repainted, Bitmap, BitmapView};
use crate::composite::{scaled_paint, scaled_pixel};
use crate::paint::{Paint, Shader};
use crate::shapes::div_toward_zero;
use crate::span::{footprint, magnitude, scaled_span, POSITION_LIMIT, SCALE_MIN};
use crate::tilemap::{TileMap, TileSet, TileStruct, EMPTY_TILE};
use vstd::prelude::*;

verus! {

/// The first tile index, along one axis, of the editor's view for a camera
/// at `camera`: the tile that the camera lies in, counted towards zero, and
/// no tile before the first.
pub open spec fn editor_first(camera: int, tile_size: int) -> int {
    if div_toward_zero(camera, tile_size) < 0 {
        0
    } else {
        div_toward_zero(camera, tile_size)
    }
}

/// The number of tiles, along one axis, that the editor's view takes in:
/// as many zoomed tiles as cover `extent` pixels, and one more.
pub open spec fn editor_reach(extent: int, tile_size: int, zoom: int) -> int {
    (extent * 65536 + tile_size * zoom - 1) / (tile_size * zoom) + 1
}

/// One past the last tile index, along one axis, of the editor's view.
pub open spec fn editor_end(camera: int, extent: int, tile_size: int, zoom: int, count: int)
    -> int {
    let end = div_toward_zero(camera, tile_size) + editor_reach(extent, tile_size, zoom);
    if end < 0 {
        0
    } else if end > count {
        count
    } else {
        end
    }
}

/// The pixel, along one axis, at which the editor's view shows the tile
/// `t`: its distance from the camera in world units, scaled by the 16.16
/// zoom and rounded down.
pub open spec fn editor_position(camera: int, t: int, tile_size: int, zoom: int) -> int {
    ((tile_size * t - camera) * zoom) / 65536
}

/// What a call of [`TileMap::editor_draw`] was given besides the grid, the
/// atlas and the target.
pub struct EditorParams {
    pub camera: (i32, i32),
    pub zoom: i32,
}

/// Far outside the destination a scaled draw paints nothing.
pub proof fn lemma_far_draw_paints_nothing(
    src: BitmapView,
    dst: BitmapView,
    x: int,
    y: int,
    scale_x: int,
    scale_y: int,
    paint: Paint,
    px: int,
    py: int,
)
    requires
        src.wf(),
        dst.wf(),
        -0x8000_0000 <= scale_x <= 0x8000_0000,
        -0x8000_0000 <= scale_y <= 0x8000_0000,
        x < -POSITION_LIMIT || x > POSITION_LIMIT || y < -POSITION_LIMIT || y > POSITION_LIMIT,
    ensures
        scaled_pixel(src, dst, x, y, scale_x, scale_y, paint, px, py) == dst.pixel(px, py),
{
    lemma_footprint_bound(src.width as int, scale_x);
    lemma_footprint_bound(src.height as int, scale_y);
    let rx = scaled_span(x, src.width as int, dst.width as int, scale_x);
    let ry = scaled_span(y, src.height as int, dst.height as int, scale_y);
    if x < -POSITION_LIMIT || x > POSITION_LIMIT {
        assert(rx.len == 0);
    } else {
        assert(ry.len == 0);
    }
}

/// A footprint is far shorter than the farthest position.
pub proof fn lemma_footprint_bound(src_dim: int, scale: int)
    requires
        0 <= src_dim <= i32::MAX,
        -0x8000_0000 <= scale <= 0x8000_0000,
    ensures
        0 <= footprint(src_dim, scale) <= 0x8000_0000_0000,
{
    let m = magnitude(scale);
    assert(0 <= src_dim * m <= 0x8000_0000 * 0x8000_0000) by (nonlinear_arith)
        requires
            0 <= src_dim <= 0x8000_0000,
            0 <= m <= 0x8000_0000,
    ;
}

/// Repainting a buffer with its own colours leaves it as it is.
pub proof fn lemma_repainted_same(dst: BitmapView, paint: spec_fn(int, int) -> u32)
    requires
        dst.wf(),
        forall|x: int, y: int| dst.contains(x, y) ==> paint(x, y) == dst.pixel(x, y),
    ensures
        dst.repainted(paint) == dst,
{
    assert(dst.repaints(dst, paint));
    lemma_repainted(dst, paint);
}

impl TileMap {
    /// The target after the editor's view drew the cell `(tx, ty)` on
    /// `dst`: nothing for an empty cell, and otherwise the cell's sprite,
    /// or the stand-in's, scaled by the zoom at the cell's place.
    pub open spec fn editor_cell_drawn(
        &self,
        atlas: &TileSet,
        dst: BitmapView,
        params: EditorParams,
        tx: int,
        ty: int,
    ) -> BitmapView {
        match self.definition_for(atlas.tile_objs@, self.cell(tx, ty)) {
            None => dst,
            Some(def) => dst.repainted(
                scaled_paint(
                    def.sprite@,
                    dst,
                    editor_position(
                        params.camera.0 as int,
                        tx,
                        self.tile_size as int,
                        params.zoom as int,
                    ),
                    editor_position(
                        params.camera.1 as int,
                        ty,
                        self.tile_size as int,
                        params.zoom as int,
                    ),
                    params.zoom as int,
                    params.zoom as int,
                    Paint::Copy,
                ),
            ),
        }
    }

    /// The target after the cells `from .. to` of the row `ty` were drawn.
    pub open spec fn editor_row_drawn(
        &self,
        atlas: &TileSet,
        dst: BitmapView,
        params: EditorParams,
        ty: int,
        from: int,
        to: int,
    ) -> BitmapView
        decreases to - from,
    {
        if to <= from {
            dst
        } else {
            self.editor_cell_drawn(
                atlas,
                self.editor_row_drawn(atlas, dst, params, ty, from, to - 1),
                params,
                to - 1,
                ty,
            )
        }
    }

    /// The target after the columns `left .. right` of the rows
    /// `from .. to` were drawn, row by row from the top.
    pub open spec fn editor_rows_drawn(
        &self,
        atlas: &TileSet,
        dst: BitmapView,
        params: EditorParams,
        left: int,
        right: int,
        from: int,
        to: int,
    ) -> BitmapView
        decreases to - from,
    {
        if to <= from {
            dst
        } else {
            self.editor_row_drawn(
                atlas,
                self.editor_rows_drawn(atlas, dst, params, left, right, from, to - 1),
                params,
                to - 1,
                left,
                right,
            )
        }
    }

    /// The target after the editor's view was drawn on `dst`. A zoom below
    /// the least scale that is drawn shows nothing.
    pub open spec fn editor_drawn(&self, atlas: &TileSet, dst: BitmapView, params: EditorParams)
        -> BitmapView {
        if params.zoom < SCALE_MIN {
            dst
        } else {
            self.editor_rows_drawn(
                atlas,
                dst,
                params,
                editor_first(params.camera.0 as int, self.tile_size as int),
                editor_end(
                    params.camera.0 as int,
                    dst.width as int,
                    self.tile_size as int,
                    params.zoom as int,
                    self.width as int,
                ),
                editor_first(params.camera.1 as int, self.tile_size as int),
                editor_end(
                    params.camera.1 as int,
                    dst.height as int,
                    self.tile_size as int,
                    params.zoom as int,
                    self.height as int,
                ),
            )
        }
    }

    /// Where the range holds no cell, the editor's view changes nothing.
    proof fn lemma_editor_nothing_drawn(
        &self,
        atlas: &TileSet,
        dst: BitmapView,
        params: EditorParams,
        left: int,
        right: int,
        from: int,
        to: int,
    )
        requires
            to <= from || right <= left,
        ensures
            self.editor_rows_drawn(atlas, dst, params, left, right, from, to) == dst,
        decreases to - from,
    {
        if to > from {
            self.lemma_editor_nothing_drawn(atlas, dst, params, left, right, from, to - 1);
        }
    }

    /// Draws the grid as the level editor shows it: seen from the world
    /// point `camera`, every tile scaled by the 16.16 factor `zoom`, unlit
    /// and whatever its flags. Empty cells are skipped, and an id without a
    /// definition is drawn as the stand-in tile.
    pub fn editor_draw(&self, tile_set: &TileSet, target: &mut Bitmap, camera: (i32, i32), zoom: i32)
        requires
            self.wf(),
            tile_set.wf(),
            old(target).wf(),
        ensures
            final(target).wf(),
            final(target)@ == self.editor_drawn(
                tile_set,
                old(target)@,
                EditorParams { camera, zoom },
            ),
    {
        if zoom < SCALE_MIN {
            return ;
        }
        let ghost before = target@;
        let ghost params = EditorParams { camera, zoom };
        let left: u32 = editor_first_tile(camera.0, self.tile_size);
        let right: u32 = editor_end_tile(
            camera.0,
            target.width(),
            self.tile_size,
            zoom,
            self.width,
        );
        let top: u32 = editor_first_tile(camera.1, self.tile_size);
        let bottom: u32 = editor_end_tile(
            camera.1,
            target.height(),
            self.tile_size,
            zoom,
            self.height,
        );
        if top >= bottom || left >= right {
            proof {
                self.lemma_editor_nothing_drawn(
                    tile_set,
                    before,
                    params,
                    left as int,
                    right as int,
                    top as int,
                    bottom as int,
                );
            }
            return ;
        }
        let mut ty: u32 = top;
        while ty < bottom
            invariant
                top <= ty <= bottom,
                left < right,
                right <= self.width,
                bottom <= self.height,
                zoom >= SCALE_MIN,
                self.wf(),
                tile_set.wf(),
                target.wf(),
                params == (EditorParams { camera, zoom }),
                target@ == self.editor_rows_drawn(
                    tile_set,
                    before,
                    params,
                    left as int,
                    right as int,
                    top as int,
                    ty as int,
                ),
            decreases bottom - ty,
        {
            let ghost row_start = target@;
            let mut tx: u32 = left;
            while tx < right
                invariant
                    left <= tx <= right,
                    top <= ty < bottom,
                    right <= self.width,
                    bottom <= self.height,
                    zoom >= SCALE_MIN,
                    self.wf(),
                    tile_set.wf(),
                    target.wf(),
                    params == (EditorParams { camera, zoom }),
                    target@ == self.editor_row_drawn(
                        tile_set,
                        row_start,
                        params,
                        ty as int,
                        left as int,
                        tx as int,
                    ),
                decreases right - tx,
            {
                self.editor_draw_cell(tile_set, target, tx, ty, camera, zoom);
                assert(self.editor_row_drawn(
                    tile_set,
                    row_start,
                    params,
                    ty as int,
                    left as int,
                    tx + 1,
                ) == self.editor_cell_drawn(
                    tile_set,
                    self.editor_row_drawn(
                        tile_set,
                        row_start,
                        params,
                        ty as int,
                        left as int,
                        tx as int,
                    ),
                    params,
                    tx as int,
                    ty as int,
                ));
                tx += 1;
            }
            assert(self.editor_rows_drawn(
                tile_set,
                before,
                params,
                left as int,
                right as int,
                top as int,
                ty + 1,
            ) == self.editor_row_drawn(
                tile_set,
                self.editor_rows_drawn(
                    tile_set,
                    before,
                    params,
                    left as int,
                    right as int,
                    top as int,
                    ty as int,
                ),
                params,
                ty as int,
                left as int,
                right as int,
            ));
            ty += 1;
        }
    }

    /// Draws one cell of the editor's view, see
    /// [`TileMap::editor_cell_drawn`].
    fn editor_draw_cell(
        &self,
        tile_set: &TileSet,
        target: &mut Bitmap,
        tx: u32,
        ty: u32,
        camera: (i32, i32),
        zoom: i32,
    )
        requires
            self.wf(),
            tile_set.wf(),
            old(target).wf(),
            self.in_grid(tx as int, ty as int),
            zoom >= SCALE_MIN,
        ensures
            final(target).wf(),
            final(target)@ == self.editor_cell_drawn(
                tile_set,
                old(target)@,
                EditorParams { camera, zoom },
                tx as int,
                ty as int,
            ),
    {
        let ghost prev = target@;
        let id: i32 = self.id_at(tx, ty);
        if id == EMPTY_TILE {
            return ;
        }
        let def: &TileStruct = if id >= 0 {
            let key: u64 = id as u64;
            match tile_set.tile_objs.get(&key) {
                Some(found) => found,
                None => &self.unsupported_tile,
            }
        } else {
            &self.unsupported_tile
        };
        assert(Some(*def) == self.definition_for(tile_set.tile_objs@, id));
        let x: i128 = editor_place(camera.0, tx, self.tile_size, zoom);
        let y: i128 = editor_place(camera.1, ty, self.tile_size, zoom);
        let ghost paint = scaled_paint(
            def.sprite@,
            prev,
            x as int,
            y as int,
            zoom as int,
            zoom as int,
            Paint::Copy,
        );
        if x < -(POSITION_LIMIT as i128) || x > POSITION_LIMIT as i128 || y < -(
        POSITION_LIMIT as i128) || y > POSITION_LIMIT as i128 {
            proof {
                assert forall|px: int, py: int| prev.contains(px, py) implies paint(px, py)
                    == prev.pixel(px, py) by {
                    lemma_far_draw_paints_nothing(
                        def.sprite@,
                        prev,
                        x as int,
                        y as int,
                        zoom as int,
                        zoom as int,
                        Paint::Copy,
                        px,
                        py,
                    );
                }
                lemma_repainted_same(prev, paint);
            }
            return ;
        }
        def.sprite.draw_scaled_with(target, x as i64, y as i64, zoom, zoom, &Shader::Copy);
        proof {
            assert(target@.repaints(prev, paint));
            lemma_repainted(prev, paint);
        }
    }
}

/// The quotient of `n` by the positive `d`, rounded towards zero, see
/// [`div_toward_zero`].
fn trunc_div(n: i32, d: u32) -> (q: i64)
    requires
        d > 0,
    ensures
        q == div_toward_zero(n as int, d as int),
        -0x8000_0000 <= q <= 0x8000_0000,
{
    let wide: i64 = n as i64;
    let by: i64 = d as i64;
    proof {
        let m: int = if n >= 0 {
            n as int
        } else {
            -(n as int)
        };
        vstd::arithmetic::div_mod::lemma_div_pos_is_pos(m, d as int);
        vstd::arithmetic::div_mod::lemma_div_is_ordered_by_denominator(m, 1, d as int);
    }
    wide / by
}

/// The first tile index of the editor's view, see [`editor_first`].
fn editor_first_tile(camera: i32, tile_size: u32) -> (t: u32)
    requires
        tile_size > 0,
    ensures
        t == editor_first(camera as int, tile_size as int),
{
    let start: i64 = trunc_div(camera, tile_size);
    if start < 0 {
        0
    } else {
        start as u32
    }
}

/// One past the last tile index of the editor's view, see [`editor_end`].
fn editor_end_tile(camera: i32, extent: usize, tile_size: u32, zoom: i32, count: u32) -> (t: u32)
    requires
        tile_size > 0,
        zoom >= SCALE_MIN,
        extent <= i32::MAX,
    ensures
        t == editor_end(
            camera as int,
            extent as int,
            tile_size as int,
            zoom as int,
            count as int,
        ),
        t <= count,
{
    let start: i64 = trunc_div(camera, tile_size);
    assert(0 < tile_size * zoom <= 0xffff_ffff * 0x7fff_ffff) by (nonlinear_arith)
        requires
            0 < tile_size <= 0xffff_ffff,
            0 < zoom <= 0x7fff_ffff,
    ;
    let zoomed: u64 = (tile_size as u64) * (zoom as u64);
    let wanted: u64 = (extent as u64) * 65536 + zoomed - 1;
    let reach: u64 = wanted / zoomed + 1;
    let end: i128 = start as i128 + reach as i128;
    if end < 0 {
        0
    } else if end > count as i128 {
        count
    } else {
        end as u32
    }
}

/// The pixel at which the editor's view shows a tile, see
/// [`editor_position`].
fn editor_place(camera: i32, t: u32, tile_size: u32, zoom: i32) -> (p: i128)
    requires
        zoom > 0,
    ensures
        p == editor_position(camera as int, t as int, tile_size as int, zoom as int),
{
    assert(0 <= tile_size * t <= 0xffff_ffff * 0xffff_ffff) by (nonlinear_arith)
        requires
            0 <= tile_size <= 0xffff_ffff,
            0 <= t <= 0xffff_ffff,
    ;
    let distance: i128 = (tile_size as i128) * (t as i128) - camera as i128;
    assert(-0x1_0000_0000_0000_0000 * 0x8000_0000 <= distance * zoom <= 0x1_0000_0000_0000_0000
        * 0x8000_0000) by (nonlinear_arith)
        requires
            -0x1_0000_0000_0000_0000 <= distance <= 0x1_0000_0000_0000_0000,
            0 < zoom <= 0x8000_0000,
    ;
    let scaled: i128 = distance * (zoom as i128);
    if scaled >= 0 {
        scaled / 65536
    } else {
        -((-scaled + 65535) / 65536)
    }
}

} // verus!
