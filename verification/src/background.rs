//! The background: layers of art drawn lit behind the level, each layer
//! shifted against the camera a little more than the one before, and laid
//! out twice in each direction so that it wraps around.

use crate::bitmap::{lemma_repainted, Bitmap, BitmapView};
use crate::composite::{background_light, scaled_paint};
use crate::paint::{Light, Paint, Shader, FLOOR_GATED};
use crate::shapes::div_toward_zero;
use crate::span::SCALE_ONE;
use vstd::prelude::*;

verus! {

/// The screen row at which the top of every layer lies.
pub const BACKGROUND_TOP: i32 = -116;

/// The greatest number of layers: the layer `i` moves by `i` tenths of the
/// camera's movement, and half the camera's movement is the most.
pub const MAX_LAYERS: usize = 6;

/// The layers of a background, the farthest first.
#[derive(Debug)]
pub struct Background {
    pub layers: Vec<Bitmap<'static>>,
}

/// What a call of [`Background::draw`] was given besides the layers and the
/// screen.
pub struct BackdropParams {
    pub camera: (i32, i32),
    pub lerped_color_mask: u32,
    pub low: Seq<u32>,
    pub high: Seq<u32>,
    pub aura_transl: (i32, i32),
}

/// The horizontal shift of the layer `layer`, `width` pixels wide, for a
/// camera at `camera_x`: the layer moves against the camera by `layer`
/// tenths of the camera's position, wrapped to less than its width, the
/// fraction dropped.
pub open spec fn layer_offset(camera_x: int, layer: int, width: int) -> int {
    if width <= 0 {
        0
    } else {
        div_toward_zero(
            -(camera_x * layer) - (10 * width) * div_toward_zero(-(camera_x * layer), 10 * width),
            10,
        )
    }
}

/// The screen after one copy of a layer was drawn lit at `(x, y)`.
pub open spec fn copy_drawn(dst: BitmapView, layer: BitmapView, x: int, y: int, p: BackdropParams)
    -> BitmapView {
    dst.repainted(
        scaled_paint(
            layer,
            dst,
            x,
            y,
            SCALE_ONE as int,
            SCALE_ONE as int,
            Paint::Light(background_light(p.low, p.high, p.aura_transl, p.lerped_color_mask)),
        ),
    )
}

/// The screen after the four copies of the layer `i` were drawn: at the
/// layer's shift and one width to the right of it, at [`BACKGROUND_TOP`]
/// and one height below it.
pub open spec fn layer_drawn(dst: BitmapView, layer: BitmapView, i: int, p: BackdropParams)
    -> BitmapView {
    let x = layer_offset(p.camera.0 as int, i, layer.width as int);
    let y = BACKGROUND_TOP as int;
    let first = copy_drawn(dst, layer, x, y, p);
    let second = copy_drawn(first, layer, x + layer.width, y, p);
    let third = copy_drawn(second, layer, x, y + layer.height, p);
    copy_drawn(third, layer, x + layer.width, y + layer.height, p)
}

impl Background {
    /// Every layer is a valid buffer, and there are no more layers than
    /// [`MAX_LAYERS`].
    pub open spec fn wf(&self) -> bool {
        &&& self.layers@.len() <= MAX_LAYERS
        &&& forall|i: int| 0 <= i < self.layers@.len() ==> (#[trigger] self.layers@[i]).wf()
    }

    /// The screen after the first `n` layers were drawn on `dst`.
    pub open spec fn drawn(&self, dst: BitmapView, n: int, p: BackdropParams) -> BitmapView
        decreases n,
    {
        if n <= 0 {
            dst
        } else {
            layer_drawn(self.drawn(dst, n - 1, p), self.layers@[n - 1]@, n - 1, p)
        }
    }

    /// Draws the layers onto `screen`, the farthest first, each lit like a
    /// background by the tables `brightness_low` and `brightness` laid at
    /// `aura_transl` and tinted by `lerped_color_mask`.
    pub fn draw(
        &self,
        screen: &mut Bitmap,
        camera: (i32, i32),
        lerped_color_mask: u32,
        brightness_low: &[u32],
        brightness: &[u32],
        aura_transl: (i32, i32),
    )
        requires
            self.wf(),
            old(screen).wf(),
        ensures
            final(screen).wf(),
            final(screen)@ == self.drawn(
                old(screen)@,
                self.layers@.len() as int,
                BackdropParams {
                    camera,
                    lerped_color_mask,
                    low: brightness_low@,
                    high: brightness@,
                    aura_transl,
                },
            ),
    {
        let ghost before = screen@;
        let ghost p = BackdropParams {
            camera,
            lerped_color_mask,
            low: brightness_low@,
            high: brightness@,
            aura_transl,
        };
        let mut i: usize = 0;
        while i < self.layers.len()
            invariant
                i <= self.layers@.len(),
                self.wf(),
                screen.wf(),
                p == (BackdropParams {
                    camera,
                    lerped_color_mask,
                    low: brightness_low@,
                    high: brightness@,
                    aura_transl,
                }),
                screen@ == self.drawn(before, i as int, p),
            decreases self.layers@.len() - i,
        {
            let layer: &Bitmap<'static> = &self.layers[i];
            let w: i64 = layer.width() as i64;
            let h: i64 = layer.height() as i64;
            let x: i64 = offset_of(camera.0, i, layer.width());
            let y: i64 = BACKGROUND_TOP as i64;
            draw_copy(layer, screen, x, y, Ghost(p), lerped_color_mask, brightness_low, brightness,
                aura_transl);
            draw_copy(layer, screen, x + w, y, Ghost(p), lerped_color_mask, brightness_low,
                brightness, aura_transl);
            draw_copy(layer, screen, x, y + h, Ghost(p), lerped_color_mask, brightness_low,
                brightness, aura_transl);
            draw_copy(layer, screen, x + w, y + h, Ghost(p), lerped_color_mask, brightness_low,
                brightness, aura_transl);
            i += 1;
        }
    }
}

/// Draws one copy of a layer, see [`copy_drawn`].
fn draw_copy(
    layer: &Bitmap,
    screen: &mut Bitmap,
    x: i64,
    y: i64,
    Ghost(p): Ghost<BackdropParams>,
    lerped_color_mask: u32,
    brightness_low: &[u32],
    brightness: &[u32],
    aura_transl: (i32, i32),
)
    requires
        layer.wf(),
        old(screen).wf(),
        -0x1_0000_0000 <= x <= 0x1_0000_0000,
        -0x1_0000_0000 <= y <= 0x1_0000_0000,
        p.lerped_color_mask == lerped_color_mask,
        p.low == brightness_low@,
        p.high == brightness@,
        p.aura_transl == aura_transl,
    ensures
        final(screen).wf(),
        final(screen)@ == copy_drawn(old(screen)@, layer@, x as int, y as int, p),
{
    let ghost prev = screen@;
    let light = Light {
        low: brightness_low,
        high: brightness,
        origin_x: aura_transl.0,
        origin_y: aura_transl.1,
        mask: lerped_color_mask,
        floor: FLOOR_GATED,
        quartered: true,
        gate: None,
    };
    let shader = Shader::Light(light);
    layer.draw_scaled_with(screen, x, y, SCALE_ONE, SCALE_ONE, &shader);
    proof {
        let paint = scaled_paint(
            layer@,
            prev,
            x as int,
            y as int,
            SCALE_ONE as int,
            SCALE_ONE as int,
            shader@,
        );
        assert(screen@.repaints(prev, paint));
        lemma_repainted(prev, paint);
    }
}

/// The shift of a layer, see [`layer_offset`].
pub fn offset_of(camera_x: i32, layer: usize, width: usize) -> (offset: i64)
    requires
        layer < MAX_LAYERS,
        width <= i32::MAX,
    ensures
        offset == layer_offset(camera_x as int, layer as int, width as int),
        -(width as int) <= offset <= width,
{
    if width == 0 {
        return 0;
    }
    assert(-0x5_0000_0000 <= camera_x * layer <= 0x5_0000_0000) by (nonlinear_arith)
        requires
            -0x8000_0000 <= camera_x <= 0x8000_0000,
            0 <= layer <= 5,
    ;
    let moved: i64 = -((camera_x as i64) * (layer as i64));
    let wrap: i64 = 10 * (width as i64);
    let turns: i64 = moved / wrap;
    let ghost m: int = if moved >= 0 {
        moved as int
    } else {
        -(moved as int)
    };
    proof {
        vstd::arithmetic::div_mod::lemma_fundamental_div_mod(m, wrap as int);
        vstd::arithmetic::div_mod::lemma_mod_bound(m, wrap as int);
        vstd::arithmetic::div_mod::lemma_div_pos_is_pos(m, wrap as int);
        assert(turns == if moved >= 0 {
            m / (wrap as int)
        } else {
            -(m / (wrap as int))
        });
        assert(wrap * turns == if moved >= 0 {
            m - m % (wrap as int)
        } else {
            -(m - m % (wrap as int))
        }) by (nonlinear_arith)
            requires
                m == wrap * (m / (wrap as int)) + m % (wrap as int),
                turns == if moved >= 0 {
                    m / (wrap as int)
                } else {
                    -(m / (wrap as int))
                },
        ;
    }
    let rest: i64 = moved - wrap * turns;
    assert(rest == if moved >= 0 {
        m % (wrap as int)
    } else {
        -(m % (wrap as int))
    });
    rest / 10
}

} // verus!
