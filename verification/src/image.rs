//! Loading sprite art: an image decoder hands over a flat buffer of red,
//! green, blue and alpha bytes, top row first, which is repacked into
//! packed colours.

use crate::bitmap::{Bitmap, BitmapView};
use crate::color::{pack, pack_argb};
use vstd::prelude::*;

verus! {

/// The number of bytes of one decoded pixel.
pub const RGBA_DEPTH: usize = 4;

/// What an image decoder made of a file's bytes.
#[derive(Debug)]
pub enum DecodedImage {
    /// Pixels of `depth` bytes each, row by row from the top.
    Bytes { width: usize, height: usize, depth: usize, data: Vec<u8> },
    /// Pixels of floating-point samples.
    Floats,
    /// No image, and the decoder's reason.
    Failed { reason: String },
}

/// Why art could not be loaded.
#[derive(Debug)]
pub enum LoadError {
    /// The decoder could not read the image.
    Undecodable { reason: String },
    /// The image does not consist of four bytes per pixel.
    UnsupportedFormat,
    /// A side of the image is longer than a coordinate can say, or the
    /// image has more pixels than memory can hold.
    TooLarge,
    /// The image does not hold four bytes for each of its pixels.
    SizeMismatch,
}

/// The packed colour of the pixel `i` of a buffer of red, green, blue and
/// alpha bytes.
pub open spec fn rgba_pixel(data: Seq<u8>, i: int) -> u32 {
    pack(data[4 * i + 3] as int, data[4 * i] as int, data[4 * i + 1] as int, data[4 * i + 2] as int)
}

/// The pixel buffer of an image of the given sides whose pixels are the
/// red, green, blue and alpha bytes of `data`.
pub open spec fn rgba_view(width: int, height: int, data: Seq<u8>) -> BitmapView {
    BitmapView {
        width: width as nat,
        height: height as nat,
        stride: width as nat,
        mem: Seq::new((width * height) as nat, |i: int| rgba_pixel(data, i)),
    }
}

/// Whether an image of the given sides can be held: each side fits a
/// coordinate, and four bytes per pixel can be counted.
pub open spec fn fits_memory(width: int, height: int) -> bool {
    width <= i32::MAX && height <= i32::MAX && width * height * 4 <= usize::MAX
}

/// What loading makes of a decoded image.
pub open spec fn loaded(image: DecodedImage) -> Result<BitmapView, LoadError> {
    match image {
        DecodedImage::Failed { reason } => Err(LoadError::Undecodable { reason }),
        DecodedImage::Floats => Err(LoadError::UnsupportedFormat),
        DecodedImage::Bytes { width, height, depth, data } => if depth != RGBA_DEPTH {
            Err(LoadError::UnsupportedFormat)
        } else if !fits_memory(width as int, height as int) {
            Err(LoadError::TooLarge)
        } else if data@.len() != width * height * 4 {
            Err(LoadError::SizeMismatch)
        } else {
            Ok(rgba_view(width as int, height as int, data@))
        },
    }
}

/// The product `width * height * 4`, if the image can be held.
fn byte_count(width: usize, height: usize) -> (n: Option<usize>)
    ensures
        match n {
            Some(count) => fits_memory(width as int, height as int) && count == width * height * 4,
            None => !fits_memory(width as int, height as int),
        },
{
    if width > i32::MAX as usize || height > i32::MAX as usize {
        return None;
    }
    assert(width * height <= 0x7fff_ffff * 0x7fff_ffff) by (nonlinear_arith)
        requires
            width <= 0x7fff_ffff,
            height <= 0x7fff_ffff,
    ;
    let pixels: u64 = (width as u64) * (height as u64);
    if pixels > (usize::MAX / 4) as u64 {
        None
    } else {
        Some((pixels as usize) * 4)
    }
}

impl<'a> Bitmap<'a> {
    /// A pixel buffer from a flat buffer of red, green, blue and alpha
    /// bytes, four for each pixel, row by row from the top.
    pub fn from_rgba(width: usize, height: usize, data: &[u8]) -> (r: Result<
        Bitmap<'static>,
        LoadError,
    >)
        ensures
            match r {
                Ok(b) => {
                    &&& fits_memory(width as int, height as int)
                    &&& data@.len() == width * height * 4
                    &&& b.wf()
                    &&& b@ == rgba_view(width as int, height as int, data@)
                },
                Err(e) => if !fits_memory(width as int, height as int) {
                    e is TooLarge
                } else {
                    e is SizeMismatch && data@.len() != width * height * 4
                },
            },
    {
        let count: usize = match byte_count(width, height) {
            None => {
                return Err(LoadError::TooLarge);
            },
            Some(count) => count,
        };
        if data.len() != count {
            return Err(LoadError::SizeMismatch);
        }
        let mut b = Bitmap::new(width, height);
        let ghost blank = b@;
        let mut y: usize = 0;
        while y < height
            invariant
                y <= height,
                b.wf(),
                b@.same_shape(blank),
                blank == BitmapView::blank(width as nat, height as nat),
                data@.len() == width * height * 4,
                fits_memory(width as int, height as int),
                b@.mem.len() == width * height,
                forall|i: int| 0 <= i < y * width ==> #[trigger] b@.mem[i] == rgba_pixel(data@, i),
            decreases height - y,
        {
            let mut x: usize = 0;
            while x < width
                invariant
                    x <= width,
                    y < height,
                    b.wf(),
                    b@.same_shape(blank),
                    blank == BitmapView::blank(width as nat, height as nat),
                    data@.len() == width * height * 4,
                    fits_memory(width as int, height as int),
                    b@.mem.len() == width * height,
                    forall|i: int|
                        0 <= i < y * width + x ==> #[trigger] b@.mem[i] == rgba_pixel(data@, i),
                decreases width - x,
            {
                proof {
                    crate::tilemap::lemma_cell_in_bounds(
                        width as int,
                        height as int,
                        x as int,
                        y as int,
                    );
                    assert(b@.index_of(x as int, y as int) == y * width + x);
                }
                let i: usize = y * width + x;
                let c: u32 = pack_argb(
                    data[4 * i + 3] as u32,
                    data[4 * i] as u32,
                    data[4 * i + 1] as u32,
                    data[4 * i + 2] as u32,
                );
                b.write(x, y, c);
                x += 1;
            }
            proof {
                assert((y + 1) * width == y * width + width) by (nonlinear_arith);
            }
            y += 1;
        }
        proof {
            vstd::arithmetic::mul::lemma_mul_is_commutative(width as int, height as int);
            assert(b@.mem =~= rgba_view(width as int, height as int, data@).mem);
        }
        Ok(b)
    }

    /// A pixel buffer from what an image decoder produced: the decoder's
    /// failure and any format other than four bytes per pixel are errors.
    pub fn from_decoded(image: DecodedImage) -> (r: Result<Bitmap<'static>, LoadError>)
        ensures
            match loaded(image) {
                Ok(view) => r is Ok && r->Ok_0.wf() && r->Ok_0@ == view,
                Err(e) => r is Err && r->Err_0 == e,
            },
    {
        match image {
            DecodedImage::Failed { reason } => Err(LoadError::Undecodable { reason }),
            DecodedImage::Floats => Err(LoadError::UnsupportedFormat),
            DecodedImage::Bytes { width, height, depth, data } => {
                if depth != RGBA_DEPTH {
                    Err(LoadError::UnsupportedFormat)
                } else {
                    Bitmap::from_rgba(width, height, data.as_slice())
                }
            },
        }
    }

    /// A pixel buffer from the bytes of an image file, decoded to four
    /// bytes per pixel. Which files the decoder reads, and how, is the
    /// decoder's affair: whatever it hands back is loaded as
    /// [`Bitmap::from_decoded`] loads it.
    pub fn decode(file: &[u8]) -> (r: Result<Bitmap<'static>, LoadError>)
        ensures
            r is Ok ==> r->Ok_0.wf(),
    {
        Bitmap::from_decoded(decode_rgba(file))
    }
}

/// Calls `stb_image::image::load_from_memory_with_depth` on the bytes of an
/// image file, asking for four bytes per pixel and for no conversion of
/// floating-point images, and hands back what it returned, variant for
/// variant. Nothing is claimed of the result.
#[verifier::external_body]
fn decode_rgba(file: &[u8]) -> (image: DecodedImage) {
    match stb_image::image::load_from_memory_with_depth(file, 4, false) {
        stb_image::image::LoadResult::ImageU8(img) => DecodedImage::Bytes {
            width: img.width,
            height: img.height,
            depth: img.depth,
            data: img.data,
        },
        stb_image::image::LoadResult::ImageF32(_) => DecodedImage::Floats,
        stb_image::image::LoadResult::Error(reason) => DecodedImage::Failed { reason },
    }
}

} // verus!
