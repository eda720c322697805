//! The pixel buffer: a dense grid of packed colours laid out row by row in
//! one block of memory, each row `stride` entries after the one before. The
//! memory is either owned by the buffer or borrowed from the caller.

use vstd::prelude::*;

verus! {

/// The place in memory of the pixel `(x, y)` of a grid whose rows lie
/// `stride` entries apart.
pub open spec fn grid_index(stride: nat, x: int, y: int) -> int {
    x + y * stride
}

/// Whether the memory entry `i` holds a pixel of a grid of the given sides
/// and stride.
pub open spec fn is_grid_index(width: nat, height: nat, stride: nat, i: int) -> bool {
    exists|x: int, y: int|
        0 <= x < width && 0 <= y < height && i == #[trigger] grid_index(stride, x, y)
}

/// The mathematical content of a pixel buffer.
pub struct BitmapView {
    pub width: nat,
    pub height: nat,
    pub stride: nat,
    pub mem: Seq<u32>,
}

impl BitmapView {
    /// Every pixel of the grid has a place in memory, and both sides of the
    /// grid fit a signed 32-bit coordinate.
    pub open spec fn wf(self) -> bool {
        &&& self.width <= self.stride
        &&& self.width <= i32::MAX
        &&& self.height <= i32::MAX
        &&& (self.width > 0 && self.height > 0) ==> (self.height - 1) * self.stride + self.width
            <= self.mem.len()
    }

    /// Whether `(x, y)` names a pixel of the grid.
    pub open spec fn contains(self, x: int, y: int) -> bool {
        0 <= x < self.width && 0 <= y < self.height
    }

    /// The place in memory of the pixel `(x, y)`.
    pub open spec fn index_of(self, x: int, y: int) -> int {
        grid_index(self.stride, x, y)
    }

    /// The colour of the pixel `(x, y)`.
    pub open spec fn pixel(self, x: int, y: int) -> u32 {
        self.mem[self.index_of(x, y)]
    }

    /// The colour read at `(x, y)`: the pixel there, or 0 outside the grid.
    pub open spec fn sample(self, x: int, y: int) -> u32 {
        if self.contains(x, y) {
            self.pixel(x, y)
        } else {
            0
        }
    }

    /// Whether the memory entry `i` holds a pixel of the grid (and not the
    /// padding between rows or the slack behind the last row).
    pub open spec fn is_pixel_index(self, i: int) -> bool {
        is_grid_index(self.width, self.height, self.stride, i)
    }

    /// The two buffers have the same sides, stride and amount of memory.
    pub open spec fn same_shape(self, other: BitmapView) -> bool {
        &&& self.width == other.width
        &&& self.height == other.height
        &&& self.stride == other.stride
        &&& self.mem.len() == other.mem.len()
    }

    /// `self` is `before` with its grid repainted: the shape is the same,
    /// every memory entry that holds no pixel is untouched, and the pixel at
    /// each `(x, y)` of the grid is `paint(x, y)`.
    pub open spec fn repaints(self, before: BitmapView, paint: spec_fn(int, int) -> u32) -> bool {
        &&& self.same_shape(before)
        &&& forall|i: int|
            0 <= i < self.mem.len() && !before.is_pixel_index(i) ==> #[trigger] self.mem[i]
                == before.mem[i]
        &&& forall|x: int, y: int|
            before.contains(x, y) ==> #[trigger] self.pixel(x, y) == paint(x, y)
    }

    /// The pixel that the memory entry `i` holds, for an entry that holds one.
    pub open spec fn coords_of(self, i: int) -> (int, int) {
        choose|x: int, y: int|
            0 <= x < self.width && 0 <= y < self.height && i == #[trigger] grid_index(
                self.stride,
                x,
                y,
            )
    }

    /// The buffer with its grid repainted: the pixel at each `(x, y)` of the
    /// grid is `paint(x, y)`, and the rest of the memory is as it was.
    pub open spec fn repainted(self, paint: spec_fn(int, int) -> u32) -> BitmapView {
        BitmapView {
            mem: Seq::new(
                self.mem.len(),
                |i: int|
                    if self.is_pixel_index(i) {
                        paint(self.coords_of(i).0, self.coords_of(i).1)
                    } else {
                        self.mem[i]
                    },
            ),
            ..self
        }
    }

    /// The buffer with the single pixel `(x, y)` set to `c`.
    pub open spec fn with_pixel(self, x: int, y: int, c: u32) -> BitmapView {
        BitmapView { mem: self.mem.update(self.index_of(x, y), c), ..self }
    }

    /// The buffer with every memory entry set to `c`.
    pub open spec fn filled(self, c: u32) -> BitmapView {
        BitmapView { mem: Seq::new(self.mem.len(), |i: int| c), ..self }
    }

    /// A fresh buffer of the given sides, its rows packed without padding,
    /// every pixel 0.
    pub open spec fn blank(width: nat, height: nat) -> BitmapView {
        BitmapView { width, height, stride: width, mem: Seq::new(width * height, |i: int| 0u32) }
    }
}

/// A pixel of the grid lies inside the memory.
pub proof fn lemma_index_in_bounds(v: BitmapView, x: int, y: int)
    requires
        v.wf(),
        v.contains(x, y),
    ensures
        0 <= y * v.stride,
        y * v.stride <= (v.height - 1) * v.stride,
        0 <= v.index_of(x, y) < v.mem.len(),
{
    vstd::arithmetic::mul::lemma_mul_inequality(y, v.height - 1, v.stride as int);
    vstd::arithmetic::mul::lemma_mul_nonnegative(y, v.stride as int);
}

/// Two different pixels of the grid lie at different places in memory.
pub proof fn lemma_index_injective(v: BitmapView, x1: int, y1: int, x2: int, y2: int)
    requires
        v.wf(),
        v.contains(x1, y1),
        v.contains(x2, y2),
        v.index_of(x1, y1) == v.index_of(x2, y2),
    ensures
        x1 == x2,
        y1 == y2,
{
    if y1 < y2 {
        vstd::arithmetic::mul::lemma_mul_inequality(y1 + 1, y2, v.stride as int);
        vstd::arithmetic::mul::lemma_mul_is_distributive_add_other_way(v.stride as int, y1, 1);
    } else if y2 < y1 {
        vstd::arithmetic::mul::lemma_mul_inequality(y2 + 1, y1, v.stride as int);
        vstd::arithmetic::mul::lemma_mul_is_distributive_add_other_way(v.stride as int, y2, 1);
    }
}

/// Setting one pixel changes that pixel and nothing else.
pub proof fn lemma_with_pixel(v: BitmapView, x: int, y: int, c: u32)
    requires
        v.wf(),
        v.contains(x, y),
    ensures
        v.with_pixel(x, y, c).wf(),
        v.with_pixel(x, y, c).same_shape(v),
        v.with_pixel(x, y, c).pixel(x, y) == c,
        forall|px: int, py: int|
            v.contains(px, py) && (px != x || py != y) ==> #[trigger] v.with_pixel(x, y, c).pixel(
                px,
                py,
            ) == v.pixel(px, py),
        forall|i: int|
            0 <= i < v.mem.len() && !v.is_pixel_index(i) ==> #[trigger] v.with_pixel(
                x,
                y,
                c,
            ).mem[i] == v.mem[i],
{
    let w = v.with_pixel(x, y, c);
    lemma_index_in_bounds(v, x, y);
    assert forall|px: int, py: int| v.contains(px, py) && (px != x || py != y) implies #[trigger]
        w.pixel(px, py) == v.pixel(px, py) by {
        lemma_index_in_bounds(v, px, py);
        if v.index_of(px, py) == v.index_of(x, y) {
            lemma_index_injective(v, px, py, x, y);
        }
    }
    assert forall|i: int| 0 <= i < v.mem.len() && !v.is_pixel_index(i) implies #[trigger]
        w.mem[i] == v.mem[i] by {
        if i == v.index_of(x, y) {
            assert(v.is_pixel_index(i));
        }
    }
}

/// A grid repainted in one way is one buffer: two buffers that repaint the
/// same buffer with paints that agree on the grid are equal.
pub proof fn lemma_repaint_unique(
    a: BitmapView,
    b: BitmapView,
    before: BitmapView,
    paint_a: spec_fn(int, int) -> u32,
    paint_b: spec_fn(int, int) -> u32,
)
    requires
        before.wf(),
        a.repaints(before, paint_a),
        b.repaints(before, paint_b),
        forall|x: int, y: int| before.contains(x, y) ==> paint_a(x, y) == paint_b(x, y),
    ensures
        a == b,
{
    assert forall|i: int| 0 <= i < a.mem.len() implies a.mem[i] == b.mem[i] by {
        if before.is_pixel_index(i) {
            let (x, y) = choose|x: int, y: int|
                0 <= x < before.width && 0 <= y < before.height && i == #[trigger] grid_index(
                    before.stride,
                    x,
                    y,
                );
            assert(a.pixel(x, y) == paint_a(x, y));
            assert(b.pixel(x, y) == paint_b(x, y));
        }
    }
    assert(a.mem =~= b.mem);
}

/// Repainting a buffer gives a buffer that repaints it, and the only one.
pub proof fn lemma_repainted(v: BitmapView, paint: spec_fn(int, int) -> u32)
    requires
        v.wf(),
    ensures
        v.repainted(paint).wf(),
        v.repainted(paint).repaints(v, paint),
        forall|r: BitmapView| #[trigger] r.repaints(v, paint) ==> r == v.repainted(paint),
{
    let w = v.repainted(paint);
    assert forall|x: int, y: int| v.contains(x, y) implies #[trigger] w.pixel(x, y) == paint(
        x,
        y,
    ) by {
        lemma_index_in_bounds(v, x, y);
        let i = v.index_of(x, y);
        assert(v.is_pixel_index(i));
        let (cx, cy) = v.coords_of(i);
        lemma_index_injective(v, x, y, cx, cy);
    }
    assert forall|r: BitmapView| #[trigger] r.repaints(v, paint) implies r == w by {
        lemma_repaint_unique(r, w, v, paint, paint);
    }
}

/// The memory behind a pixel buffer.
#[derive(Debug)]
pub enum BitmapData<'a> {
    /// Memory that the buffer owns.
    Owned(Vec<u32>),
    /// Memory that the caller lends for as long as the buffer lives.
    Borrowed(&'a mut [u32]),
}

impl<'a> BitmapData<'a> {
    /// The entries of the memory, in order.
    pub open spec fn mem(&self) -> Seq<u32> {
        match self {
            BitmapData::Owned(v) => v@,
            BitmapData::Borrowed(s) => s@,
        }
    }

    proof fn lemma_mem_fits(&self)
        ensures
            self.mem().len() <= usize::MAX,
    {
        match self {
            BitmapData::Owned(v) => {
                assert(v.len() == v@.len());
            },
            BitmapData::Borrowed(s) => {
                assert(s.len() == s@.len());
            },
        }
    }

    fn pixels(&self) -> (s: &[u32])
        ensures
            s@ == self.mem(),
    {
        match self {
            BitmapData::Owned(v) => v.as_slice(),
            BitmapData::Borrowed(s) => s,
        }
    }

    fn pixels_mut(&mut self) -> (s: &mut [u32])
        ensures
            s@ == old(self).mem(),
            final(s)@ == final(self).mem(),
    {
        match self {
            BitmapData::Owned(v) => v.as_mut_slice(),
            BitmapData::Borrowed(s) => s,
        }
    }

    fn len(&self) -> (n: usize)
        ensures
            n == self.mem().len(),
    {
        match self {
            BitmapData::Owned(v) => v.len(),
            BitmapData::Borrowed(s) => s.len(),
        }
    }

    fn get(&self, i: usize) -> (c: u32)
        requires
            i < self.mem().len(),
        ensures
            c == self.mem()[i as int],
    {
        match self {
            BitmapData::Owned(v) => v[i],
            BitmapData::Borrowed(s) => s[i],
        }
    }

    fn put(&mut self, i: usize, c: u32)
        requires
            i < old(self).mem().len(),
        ensures
            final(self).mem() == old(self).mem().update(i as int, c),
    {
        match self {
            BitmapData::Owned(v) => {
                v[i] = c;
            },
            BitmapData::Borrowed(s) => {
                s[i] = c;
            },
        }
    }
}

/// A pixel buffer.
#[derive(Debug)]
pub struct Bitmap<'a> {
    width: usize,
    height: usize,
    stride: usize,
    pixels: BitmapData<'a>,
}

impl<'a> View for Bitmap<'a> {
    type V = BitmapView;

    closed spec fn view(&self) -> BitmapView {
        BitmapView {
            width: self.width as nat,
            height: self.height as nat,
            stride: self.stride as nat,
            mem: self.pixels.mem(),
        }
    }
}

impl<'a> Bitmap<'a> {
    /// The buffer's invariant, see [`BitmapView::wf`].
    pub open spec fn wf(&self) -> bool {
        self@.wf()
    }

    /// An owned buffer of the given sides with every pixel 0.
    pub fn new(width: usize, height: usize) -> (b: Bitmap<'static>)
        requires
            width <= i32::MAX,
            height <= i32::MAX,
            width * height <= usize::MAX,
        ensures
            b.wf(),
            b@ == BitmapView::blank(width as nat, height as nat),
    {
        let n: usize = width * height;
        let pixels: Vec<u32> = vec![0u32; n];
        let b = Bitmap { width, height, stride: width, pixels: BitmapData::Owned(pixels) };
        proof {
            assert(b@.mem =~= BitmapView::blank(width as nat, height as nat).mem);
            if width > 0 && height > 0 {
                vstd::arithmetic::mul::lemma_mul_is_distributive_sub_other_way(
                    width as int,
                    height as int,
                    1,
                );
                vstd::arithmetic::mul::lemma_mul_is_commutative(width as int, height as int);
            }
        }
        b
    }

    /// A buffer over memory that the caller lends. The caller keeps the
    /// memory untouched for as long as the buffer lives and gets it back,
    /// drawn on, when the buffer is dropped.
    pub fn new_borrowed(pixels: &'a mut [u32], width: usize, height: usize, stride: usize) -> (b:
        Bitmap<'a>)
        requires
            (BitmapView {
                width: width as nat,
                height: height as nat,
                stride: stride as nat,
                mem: old(pixels)@,
            }).wf(),
        ensures
            b.wf(),
            b@ == (BitmapView {
                width: width as nat,
                height: height as nat,
                stride: stride as nat,
                mem: old(pixels)@,
            }),
    {
        Bitmap { width, height, stride, pixels: BitmapData::Borrowed(pixels) }
    }

    /// The number of pixels in a row.
    pub fn width(&self) -> (w: usize)
        ensures
            w == self@.width,
    {
        self.width
    }

    /// The number of rows.
    pub fn height(&self) -> (h: usize)
        ensures
            h == self@.height,
    {
        self.height
    }

    /// The distance in memory from one row to the next.
    pub fn stride(&self) -> (s: usize)
        ensures
            s == self@.stride,
    {
        self.stride
    }

    /// The whole memory behind the buffer.
    pub fn pixels(&self) -> (s: &[u32])
        ensures
            s@ == self@.mem,
    {
        self.pixels.pixels()
    }

    /// The whole memory behind the buffer, to be written. Its length stays
    /// what it is, so the grid keeps its place in it.
    pub fn pixels_mut(&mut self) -> (s: &mut [u32])
        ensures
            s@ == old(self)@.mem,
            final(self)@ == (BitmapView { mem: final(s)@, ..old(self)@ }),
    {
        self.pixels.pixels_mut()
    }

    /// Sets every entry of the memory behind the buffer to `color`.
    pub fn clear(&mut self, color: u32)
        requires
            old(self).wf(),
        ensures
            final(self).wf(),
            final(self)@ == old(self)@.filled(color),
    {
        let ghost before = self@;
        let n: usize = self.pixels.len();
        let mut i: usize = 0;
        while i < n
            invariant
                i <= n,
                n == before.mem.len(),
                self.width == before.width,
                self.height == before.height,
                self.stride == before.stride,
                self.pixels.mem().len() == n,
                forall|k: int| 0 <= k < i ==> self.pixels.mem()[k] == color,
            decreases n - i,
        {
            self.pixels.put(i, color);
            i += 1;
        }
        assert(self@.mem =~= before.filled(color).mem);
    }

    /// An owned copy of the buffer, memory and all.
    pub fn duplicate(&self) -> (copy: Bitmap<'static>)
        requires
            self.wf(),
        ensures
            copy.wf(),
            copy@ == self@,
    {
        let n: usize = self.pixels.len();
        let mut pixels: Vec<u32> = Vec::new();
        let mut i: usize = 0;
        while i < n
            invariant
                i <= n,
                n == self.pixels.mem().len(),
                pixels@ == self.pixels.mem().subrange(0, i as int),
            decreases n - i,
        {
            pixels.push(self.pixels.get(i));
            assert(pixels@ =~= self.pixels.mem().subrange(0, i + 1));
            i += 1;
        }
        assert(pixels@ =~= self.pixels.mem());
        Bitmap {
            width: self.width,
            height: self.height,
            stride: self.stride,
            pixels: BitmapData::Owned(pixels),
        }
    }

    /// The pixel `(x, y)` of the grid.
    pub fn read(&self, x: usize, y: usize) -> (c: u32)
        requires
            self.wf(),
            self@.contains(x as int, y as int),
        ensures
            c == self@.pixel(x as int, y as int),
    {
        proof {
            lemma_index_in_bounds(self@, x as int, y as int);
            self.pixels.lemma_mem_fits();
        }
        self.pixels.get(x + y * self.stride)
    }

    /// Sets the pixel `(x, y)` of the grid.
    pub fn write(&mut self, x: usize, y: usize, c: u32)
        requires
            old(self).wf(),
            old(self)@.contains(x as int, y as int),
        ensures
            final(self).wf(),
            final(self)@ == old(self)@.with_pixel(x as int, y as int, c),
    {
        proof {
            lemma_index_in_bounds(self@, x as int, y as int);
            lemma_with_pixel(self@, x as int, y as int, c);
            self.pixels.lemma_mem_fits();
        }
        self.pixels.put(x + y * self.stride, c);
    }

    /// Sets the pixel `(x, y)` if it lies in the grid, and does nothing
    /// otherwise.
    pub fn plot(&mut self, x: i32, y: i32, color: u32)
        requires
            old(self).wf(),
        ensures
            final(self).wf(),
            final(self)@ == if old(self)@.contains(x as int, y as int) {
                old(self)@.with_pixel(x as int, y as int, color)
            } else {
                old(self)@
            },
    {
        if x >= 0 && y >= 0 && (x as usize) < self.width && (y as usize) < self.height {
            self.write(x as usize, y as usize, color);
        }
    }

    /// The pixel `(x, y)` if it lies in the grid, and 0 otherwise.
    pub fn load_pixel(&self, x: i32, y: i32) -> (c: u32)
        requires
            self.wf(),
        ensures
            c == self@.sample(x as int, y as int),
    {
        if x >= 0 && y >= 0 && (x as usize) < self.width && (y as usize) < self.height {
            self.read(x as usize, y as usize)
        } else {
            0
        }
    }
}

} // verus!
