//! Placement along one axis. A draw call covers a run of destination
//! coordinates and reads, for each of them, one source coordinate; the
//! source position advances in 16.16 fixed point. Both an unscaled copy and
//! a scaled, possibly mirrored, copy are runs of this kind.

use vstd::prelude::*;

verus! {

/// The scale factor 1 in 16.16 fixed point.
pub const SCALE_ONE: i32 = 65536;

/// The smallest magnitude of a scale factor that is drawn at all: the
/// first 16.16 value that is not below one thousandth.
pub const SCALE_MIN: i32 = 66;

/// The farthest, on either side, that a draw call's position may lie.
pub const POSITION_LIMIT: i64 = 0x4000_0000_0000_0000;

/// A run along one axis: the destination coordinates `dst .. dst + len`,
/// the first of which samples the 16.16 source position `start`, each
/// further one `step` later (`forward`) or earlier.
pub struct SpanView {
    pub dst: int,
    pub len: int,
    pub start: int,
    pub step: int,
    pub forward: bool,
}

impl SpanView {
    /// Whether the run covers the destination coordinate `p`.
    pub open spec fn covers(self, p: int) -> bool {
        self.dst <= p < self.dst + self.len
    }

    /// The 16.16 source position sampled at the destination coordinate `p`.
    pub open spec fn position(self, p: int) -> int {
        if self.forward {
            self.start + (p - self.dst) * self.step
        } else {
            self.start - (p - self.dst) * self.step
        }
    }

    /// The source coordinate sampled at the destination coordinate `p`.
    pub open spec fn source(self, p: int) -> int {
        self.position(p) / 65536
    }

    /// The run stays inside a destination of `dst_dim` coordinates and
    /// samples only inside a source of `src_dim` coordinates.
    pub open spec fn fits(self, src_dim: int, dst_dim: int) -> bool {
        &&& 0 <= self.dst
        &&& 0 <= self.len
        &&& 0 <= self.step
        &&& self.dst + self.len <= dst_dim
        &&& forall|p: int|
            self.covers(p) ==> 0 <= #[trigger] self.position(p) < src_dim * 65536
    }

    /// The run that covers nothing.
    pub open spec fn nothing() -> SpanView {
        SpanView { dst: 0, len: 0, start: 0, step: 0, forward: true }
    }
}

/// How many leading coordinates of a footprint placed at `pos` fall before
/// the destination begins.
pub open spec fn clipped_before(pos: int) -> int {
    if pos < 0 {
        -pos
    } else {
        0
    }
}

/// The first destination coordinate that a footprint placed at `pos` covers.
pub open spec fn first_covered(pos: int) -> int {
    if pos < 0 {
        0
    } else {
        pos
    }
}

/// How many destination coordinates a footprint of `size` coordinates placed
/// at `pos` covers in a destination of `dst_dim` coordinates (not positive
/// when it covers none).
pub open spec fn covered_len(pos: int, size: int, dst_dim: int) -> int {
    if size - clipped_before(pos) < dst_dim - first_covered(pos) {
        size - clipped_before(pos)
    } else {
        dst_dim - first_covered(pos)
    }
}

/// The run of an unscaled copy of `src_dim` coordinates placed at `pos`:
/// the part of `pos .. pos + src_dim` inside the destination, each
/// coordinate `p` reading the source coordinate `p - pos`.
pub open spec fn direct_span(pos: int, src_dim: int, dst_dim: int) -> SpanView {
    if covered_len(pos, src_dim, dst_dim) <= 0 {
        SpanView::nothing()
    } else {
        SpanView {
            dst: first_covered(pos),
            len: covered_len(pos, src_dim, dst_dim),
            start: clipped_before(pos) * 65536,
            step: 65536,
            forward: true,
        }
    }
}

/// The magnitude of a 16.16 scale factor.
pub open spec fn magnitude(scale: int) -> int {
    if scale < 0 {
        -scale
    } else {
        scale
    }
}

/// The number of destination coordinates that `src_dim` source coordinates
/// take up at the given 16.16 scale, rounded down.
pub open spec fn footprint(src_dim: int, scale: int) -> int {
    (src_dim * magnitude(scale)) / 65536
}

/// The 16.16 distance in the source between two neighbouring destination
/// coordinates of a footprint of `size` coordinates.
pub open spec fn sample_step(src_dim: int, size: int) -> int {
    (65536int / size) * src_dim
}

/// The run of a scaled copy of `src_dim` coordinates placed at `pos`. Its
/// footprint is clipped to the destination like an unscaled copy. With a
/// positive scale the first covered coordinate samples as many steps into
/// the source as coordinates were clipped before it; with a negative scale
/// the run is mirrored: its last coordinate samples position 0 and each
/// earlier one a step further.
pub open spec fn scaled_span(pos: int, src_dim: int, dst_dim: int, scale: int) -> SpanView {
    let size = footprint(src_dim, scale);
    if size <= 0 || covered_len(pos, size, dst_dim) <= 0 {
        SpanView::nothing()
    } else if scale > 0 {
        SpanView {
            dst: first_covered(pos),
            len: covered_len(pos, size, dst_dim),
            start: clipped_before(pos) * sample_step(src_dim, size),
            step: sample_step(src_dim, size),
            forward: true,
        }
    } else {
        SpanView {
            dst: first_covered(pos),
            len: covered_len(pos, size, dst_dim),
            start: (covered_len(pos, size, dst_dim) - 1) * sample_step(src_dim, size),
            step: sample_step(src_dim, size),
            forward: false,
        }
    }
}

/// Any whole number of steps below the footprint's size lands inside the
/// source.
pub proof fn lemma_steps_stay_inside(k: int, size: int, src_dim: int)
    requires
        0 <= k < size,
        0 < src_dim,
    ensures
        0 <= k * sample_step(src_dim, size) < src_dim * 65536,
        0 <= sample_step(src_dim, size) <= src_dim * 65536,
{
    let q: int = 65536int / size;
    vstd::arithmetic::div_mod::lemma_fundamental_div_mod(65536, size);
    vstd::arithmetic::div_mod::lemma_div_pos_is_pos(65536, size);
    vstd::arithmetic::div_mod::lemma_mod_bound(65536, size);
    assert(size * q <= 65536);
    assert(0 <= q <= 65536) by (nonlinear_arith)
        requires
            size * q <= 65536,
            size >= 1,
            q >= 0,
    ;
    assert(k * q <= 65536 - q) by (nonlinear_arith)
        requires
            0 <= k < size,
            size * q <= 65536,
            q >= 0,
    ;
    assert(0 <= k * (q * src_dim) < src_dim * 65536) by (nonlinear_arith)
        requires
            0 <= k,
            0 <= q,
            k * q <= 65536 - q,
            0 < src_dim,
    {
        assert(k * (q * src_dim) == (k * q) * src_dim);
        if q == 0 {
            assert(k * q == 0);
        } else {
            assert((k * q) * src_dim <= 65535 * src_dim);
        }
    }
    assert(0 <= q * src_dim <= src_dim * 65536) by (nonlinear_arith)
        requires
            0 <= q <= 65536,
            0 < src_dim,
    ;
}

/// An unscaled run reads the source coordinate `p - pos` at `p`, and covers
/// exactly the coordinates of the destination for which that is a
/// coordinate of the source.
pub proof fn lemma_direct_span(pos: int, src_dim: int, dst_dim: int)
    requires
        0 <= src_dim,
        0 <= dst_dim,
    ensures
        direct_span(pos, src_dim, dst_dim).fits(src_dim, dst_dim),
        forall|p: int| #[trigger]
            direct_span(pos, src_dim, dst_dim).covers(p) <==> 0 <= p < dst_dim && 0 <= p - pos
                < src_dim,
        forall|p: int| #[trigger]
            direct_span(pos, src_dim, dst_dim).covers(p) ==> direct_span(
                pos,
                src_dim,
                dst_dim,
            ).source(p) == p - pos,
{
    let s = direct_span(pos, src_dim, dst_dim);
    assert forall|p: int| s.covers(p) implies 0 <= #[trigger] s.position(p) < src_dim * 65536
        && s.source(p) == p - pos by {
        assert(s.position(p) == (p - pos) * 65536);
        vstd::arithmetic::div_mod::lemma_fundamental_div_mod_converse(
            s.position(p),
            65536,
            p - pos,
            0,
        );
    }
}

/// A scaled run is clipped to the destination and samples only inside the
/// source.
pub proof fn lemma_scaled_span_fits(pos: int, src_dim: int, dst_dim: int, scale: int)
    requires
        0 <= src_dim,
        0 <= dst_dim,
    ensures
        scaled_span(pos, src_dim, dst_dim, scale).fits(src_dim, dst_dim),
{
    let s = scaled_span(pos, src_dim, dst_dim, scale);
    let size = footprint(src_dim, scale);
    if size > 0 && covered_len(pos, size, dst_dim) > 0 {
        if src_dim == 0 {
            assert(src_dim * magnitude(scale) == 0) by (nonlinear_arith)
                requires
                    src_dim == 0,
            ;
        }
        let step = sample_step(src_dim, size);
        lemma_steps_stay_inside(0, size, src_dim);
        assert forall|p: int| s.covers(p) implies 0 <= #[trigger] s.position(p) < src_dim
            * 65536 by {
            let k: int = if scale > 0 {
                clipped_before(pos) + (p - s.dst)
            } else {
                s.len - 1 - (p - s.dst)
            };
            lemma_steps_stay_inside(k, size, src_dim);
            assert(s.position(p) == k * step) by (nonlinear_arith)
                requires
                    s.position(p) == if scale > 0 {
                        clipped_before(pos) * step + (p - s.dst) * step
                    } else {
                        (s.len - 1) * step - (p - s.dst) * step
                    },
                    k == if scale > 0 {
                        clipped_before(pos) + (p - s.dst)
                    } else {
                        s.len - 1 - (p - s.dst)
                    },
            ;
        }
    }
}

/// At scale 1 a source whose size divides 65536 is placed exactly as an
/// unscaled copy places it.
pub proof fn lemma_unit_scale_span(pos: int, src_dim: int, dst_dim: int)
    requires
        0 <= src_dim,
        0 <= dst_dim,
        src_dim > 0 ==> 65536int % src_dim == 0,
    ensures
        scaled_span(pos, src_dim, dst_dim, 65536) == direct_span(pos, src_dim, dst_dim),
{
    assert(footprint(src_dim, 65536) == src_dim) by {
        vstd::arithmetic::div_mod::lemma_fundamental_div_mod_converse(
            src_dim * 65536,
            65536,
            src_dim,
            0,
        );
    }
    if src_dim > 0 {
        vstd::arithmetic::div_mod::lemma_fundamental_div_mod(65536, src_dim);
        assert(sample_step(src_dim, src_dim) == 65536) by (nonlinear_arith)
            requires
                65536 == src_dim * (65536int / src_dim) + 65536int % src_dim,
                65536int % src_dim == 0,
                sample_step(src_dim, src_dim) == (65536int / src_dim) * src_dim,
        ;
    }
}

/// A run along one axis, ready to be walked.
pub struct Span {
    pub dst: usize,
    pub len: usize,
    pub start: u64,
    pub step: u64,
    pub forward: bool,
}

impl View for Span {
    type V = SpanView;

    open spec fn view(&self) -> SpanView {
        SpanView {
            dst: self.dst as int,
            len: self.len as int,
            start: self.start as int,
            step: self.step as int,
            forward: self.forward,
        }
    }
}

impl Span {
    /// The run that covers nothing.
    pub fn nothing() -> (s: Span)
        ensures
            s@ == SpanView::nothing(),
    {
        Span { dst: 0, len: 0, start: 0, step: 0, forward: true }
    }

    /// The source coordinate read at the `i`-th covered coordinate.
    pub fn source_at(&self, i: usize, src_dim: usize, dst_dim: usize) -> (s: usize)
        requires
            self@.fits(src_dim as int, dst_dim as int),
            i < self.len,
            src_dim <= i32::MAX,
        ensures
            s == self@.source(self.dst + i),
            0 <= s < src_dim,
    {
        proof {
            assert(self@.covers(self.dst + i));
            assert(0 <= self@.position(self.dst + i) < src_dim * 65536);
            vstd::arithmetic::mul::lemma_mul_nonnegative(i as int, self.step as int);
            vstd::arithmetic::div_mod::lemma_div_pos_is_pos(self@.position(self.dst + i), 65536);
        }
        let offset: u64 = (i as u64) * self.step;
        let position: u64 = if self.forward {
            self.start + offset
        } else {
            self.start - offset
        };
        (position / 65536) as usize
    }
}

/// The run of an unscaled copy, see [`direct_span`].
pub fn direct_run(pos: i64, src_dim: usize, dst_dim: usize) -> (s: Span)
    requires
        src_dim <= i32::MAX,
        dst_dim <= i32::MAX,
        -POSITION_LIMIT <= pos <= POSITION_LIMIT,
    ensures
        s@ == direct_span(pos as int, src_dim as int, dst_dim as int),
        s@.fits(src_dim as int, dst_dim as int),
{
    proof {
        lemma_direct_span(pos as int, src_dim as int, dst_dim as int);
    }
    let skip: i64 = if pos < 0 { -pos } else { 0 };
    let dst: i64 = if pos < 0 { 0 } else { pos };
    let from_src: i64 = src_dim as i64 - skip;
    let from_dst: i64 = dst_dim as i64 - dst;
    let room: i64 = if from_src < from_dst { from_src } else { from_dst };
    if room <= 0 {
        Span::nothing()
    } else {
        Span {
            dst: dst as usize,
            len: room as usize,
            start: (skip as u64) * 65536,
            step: 65536,
            forward: true,
        }
    }
}

/// The run of a scaled copy, see [`scaled_span`].
pub fn scaled_run(pos: i64, src_dim: usize, dst_dim: usize, scale: i32) -> (s: Span)
    requires
        src_dim <= i32::MAX,
        dst_dim <= i32::MAX,
        -POSITION_LIMIT <= pos <= POSITION_LIMIT,
    ensures
        s@ == scaled_span(pos as int, src_dim as int, dst_dim as int, scale as int),
        s@.fits(src_dim as int, dst_dim as int),
{
    proof {
        lemma_scaled_span_fits(pos as int, src_dim as int, dst_dim as int, scale as int);
    }
    let wide: i64 = scale as i64;
    let mag: u64 = if wide < 0 { (-wide) as u64 } else { wide as u64 };
    assert(src_dim * mag <= 0x7fff_ffff * 0x8000_0000) by (nonlinear_arith)
        requires
            src_dim <= 0x7fff_ffff,
            mag <= 0x8000_0000,
    ;
    let size: u64 = ((src_dim as u64) * mag) / 65536;
    if size == 0 {
        return Span::nothing();
    }
    assert(src_dim > 0) by {
        if src_dim == 0 {
            assert(src_dim * mag == 0) by (nonlinear_arith)
                requires
                    src_dim == 0,
            ;
        }
    }
    let skip: i64 = if pos < 0 { -pos } else { 0 };
    let dst: i64 = if pos < 0 { 0 } else { pos };
    let from_src: i64 = size as i64 - skip;
    let from_dst: i64 = dst_dim as i64 - dst;
    let room: i64 = if from_src < from_dst { from_src } else { from_dst };
    if room <= 0 {
        return Span::nothing();
    }
    proof {
        lemma_steps_stay_inside(0, size as int, src_dim as int);
        lemma_steps_stay_inside(skip as int, size as int, src_dim as int);
        lemma_steps_stay_inside(room - 1, size as int, src_dim as int);
        assert((65536u64 / size) as int == 65536int / (size as int));
        assert(0 <= 65536int / (size as int) <= 65536) by {
            vstd::arithmetic::div_mod::lemma_div_pos_is_pos(65536, size as int);
            vstd::arithmetic::div_mod::lemma_div_is_ordered_by_denominator(65536, 1, size as int);
        }
        assert((65536int / (size as int)) * src_dim <= 65536 * 0x7fff_ffff) by (nonlinear_arith)
            requires
                0 <= 65536int / (size as int) <= 65536,
                0 <= src_dim <= 0x7fff_ffff,
        ;
    }
    let step: u64 = (65536 / size) * (src_dim as u64);
    if scale > 0 {
        Span { dst: dst as usize, len: room as usize, start: (skip as u64) * step, step, forward: true }
    } else {
        Span {
            dst: dst as usize,
            len: room as usize,
            start: ((room - 1) as u64) * step,
            step,
            forward: false,
        }
    }
}

} // verus!
