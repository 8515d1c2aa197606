//! Decoded images as plain values, and the thumbnails made of them.

use vstd::prelude::*;

verus! {

/// An image, four bytes for each pixel, row by row.
#[derive(Debug)]
pub struct RgbaPixels {
    pub width: u32,
    pub height: u32,
    pub pixels: Vec<u8>,
}

#[verifier::ext_equal]
pub struct PixelsView {
    pub width: u32,
    pub height: u32,
    pub pixels: Seq<u8>,
}

impl View for RgbaPixels {
    type V = PixelsView;

    open spec fn view(&self) -> PixelsView {
        PixelsView { width: self.width, height: self.height, pixels: self.pixels@ }
    }
}

/// The side of the thumbnails that are stored.
pub const THUMBNAIL_SIDE: u32 = 196;

/// The size of the frames that an animated tile shows.
pub const FRAME_WIDTH: u32 = 320;

pub const FRAME_HEIGHT: u32 = 168;

/// Whether the buffer holds all pixels of the image, and a row of it is within
/// the machine's sizes.
pub open spec fn buffer_fits(width: u32, height: u32, len: nat) -> bool {
    &&& 4 * width <= usize::MAX
    &&& 4 * width * height <= len
}

/// No fewer than the pixels in a row of length `len` that fall on one pixel when the
/// row is scaled to `new_len`: their share, with what rounding in 32-bit floating
/// point adds to it, and never more than there are.
pub open spec fn share_bound(len: u32, new_len: u32) -> int {
    let share = len / new_len + len / 0x40_0000 + 3;
    if share < len {
        share
    } else {
        len as int
    }
}

/// Whether an image is small enough that the sum over the pixels that fall on
/// one pixel of its thumbnail fits in 32 bits.
pub open spec fn thumbnail_fits(width: u32, height: u32, new_width: u32, new_height: u32) -> bool {
    &&& 0 < new_width <= 1024
    &&& 0 < new_height <= 1024
    &&& share_bound(width, new_width) * share_bound(height, new_height) * 256 <= u32::MAX
}

impl PixelsView {
    /// Whether a stored thumbnail can be made of the image.
    pub open spec fn storable(self) -> bool {
        &&& buffer_fits(self.width, self.height, self.pixels.len())
        &&& thumbnail_fits(self.width, self.height, THUMBNAIL_SIDE, THUMBNAIL_SIDE)
    }

    /// Whether a frame of an animated tile can be made of the image.
    pub open spec fn showable(self) -> bool {
        &&& buffer_fits(self.width, self.height, self.pixels.len())
        &&& thumbnail_fits(self.width, self.height, FRAME_WIDTH, FRAME_HEIGHT)
    }

    /// The thumbnail that is stored with the image.
    pub open spec fn thumbnail(self) -> PixelsView {
        PixelsView {
            width: THUMBNAIL_SIDE,
            height: THUMBNAIL_SIDE,
            pixels: thumbnail_pixels(
                self.width,
                self.height,
                self.pixels,
                THUMBNAIL_SIDE,
                THUMBNAIL_SIDE,
            ),
        }
    }

    /// The frame of an animated tile that shows the image.
    pub open spec fn frame(self) -> PixelsView {
        PixelsView {
            width: FRAME_WIDTH,
            height: FRAME_HEIGHT,
            pixels: thumbnail_pixels(
                self.width,
                self.height,
                self.pixels,
                FRAME_WIDTH,
                FRAME_HEIGHT,
            ),
        }
    }
}

/// The pixels of an image that `image::imageops::thumbnail` has scaled to a new
/// size.
pub uninterp spec fn thumbnail_pixels(
    width: u32,
    height: u32,
    pixels: Seq<u8>,
    new_width: u32,
    new_height: u32,
) -> Seq<u8>;

/// `image::imageops::thumbnail` on an image with four bytes per pixel: the image
/// scaled to exactly the new size. The colours that come out are left to their
/// name. Each is an average whose sum is held in 32 bits; an image for which that
/// is too little is left out.
#[verifier::external_body]
pub(crate) fn scaled_pixels(
    width: u32,
    height: u32,
    pixels: &Vec<u8>,
    new_width: u32,
    new_height: u32,
) -> (scaled: Vec<u8>)
    requires
        buffer_fits(width, height, pixels@.len()),
        thumbnail_fits(width, height, new_width, new_height),
    ensures
        scaled@ == thumbnail_pixels(width, height, pixels@, new_width, new_height),
        scaled@.len() == 4 * new_width * new_height,
{
    let image = image::ImageBuffer::<image::Rgba<u8>, &[u8]>::from_raw(
        width,
        height,
        pixels.as_slice(),
    ).unwrap();
    image::imageops::thumbnail(&image, new_width, new_height).into_raw()
}

/// `image::RgbaImage::from_raw` and `into_raw`: accepts a buffer that is large
/// enough for the pixels of the image, even if some of it is left over, and
/// keeps it whole.
#[verifier::external_body]
pub(crate) fn checked_buffer(width: u32, height: u32, bytes: Vec<u8>) -> (pixels: Option<Vec<u8>>)
    ensures
        pixels is Some <==> buffer_fits(width, height, bytes@.len()),
        pixels matches Some(p) ==> p@ == bytes@,
{
    image::RgbaImage::from_raw(width, height, bytes).map(|image| image.into_raw())
}

/// No fewer than the pixels of a row that fall on one pixel when it is scaled.
fn bound_of_share(len: u32, new_len: u32) -> (bound: u32)
    requires
        new_len > 0,
    ensures
        bound == share_bound(len, new_len),
{
    let share: u64 = (len / new_len) as u64 + (len / 0x40_0000) as u64 + 3;
    if share < len as u64 {
        share as u32
    } else {
        len
    }
}

/// Whether the sums over the pixels of a thumbnail fit in 32 bits.
pub fn scaling_fits(width: u32, height: u32, new_width: u32, new_height: u32) -> (yes: bool)
    ensures
        yes == thumbnail_fits(width, height, new_width, new_height),
{
    if new_width == 0 || new_width > 1024 || new_height == 0 || new_height > 1024 {
        return false;
    }
    let columns: u128 = bound_of_share(width, new_width) as u128;
    let rows: u128 = bound_of_share(height, new_height) as u128;
    assert(columns * rows * 256 <= 0x1_0000_0000 * 0x1_0000_0000 * 256) by (nonlinear_arith)
        requires
            0 <= columns <= 0x1_0000_0000,
            0 <= rows <= 0x1_0000_0000,
    ;
    assert(columns * rows <= columns * rows * 256) by (nonlinear_arith)
        requires
            0 <= columns,
            0 <= rows,
    ;
    columns * rows * 256 <= u32::MAX as u128
}

/// Whether the buffer holds all pixels of the image.
pub fn holds_image(width: u32, height: u32, len: usize) -> (yes: bool)
    ensures
        yes == buffer_fits(width, height, len as nat),
{
    let row: u128 = 4 * (width as u128);
    assert(0 <= row * height <= 0x4_0000_0000 * 0x1_0000_0000) by (nonlinear_arith)
        requires
            0 <= row <= 0x4_0000_0000,
            0 <= height <= 0x1_0000_0000,
    ;
    row <= usize::MAX as u128 && row * (height as u128) <= len as u128
}

impl RgbaPixels {
    /// Whether a stored thumbnail can be made of the image.
    pub fn is_storable(&self) -> (yes: bool)
        ensures
            yes == self@.storable(),
    {
        holds_image(self.width, self.height, self.pixels.len()) && scaling_fits(
            self.width,
            self.height,
            THUMBNAIL_SIDE,
            THUMBNAIL_SIDE,
        )
    }

    /// Whether a frame of an animated tile can be made of the image.
    pub fn is_showable(&self) -> (yes: bool)
        ensures
            yes == self@.showable(),
    {
        holds_image(self.width, self.height, self.pixels.len()) && scaling_fits(
            self.width,
            self.height,
            FRAME_WIDTH,
            FRAME_HEIGHT,
        )
    }

    /// The thumbnail that is stored with the image.
    pub fn thumbnail(&self) -> (thumbnail: RgbaPixels)
        requires
            self@.storable(),
        ensures
            thumbnail@ == self@.thumbnail(),
            thumbnail@.pixels.len() == 4 * THUMBNAIL_SIDE * THUMBNAIL_SIDE,
    {
        RgbaPixels {
            width: THUMBNAIL_SIDE,
            height: THUMBNAIL_SIDE,
            pixels: scaled_pixels(
                self.width,
                self.height,
                &self.pixels,
                THUMBNAIL_SIDE,
                THUMBNAIL_SIDE,
            ),
        }
    }

    /// The frame of an animated tile that shows the image.
    pub fn frame(&self) -> (frame: RgbaPixels)
        requires
            self@.showable(),
        ensures
            frame@ == self@.frame(),
            frame@.pixels.len() == 4 * FRAME_WIDTH * FRAME_HEIGHT,
    {
        RgbaPixels {
            width: FRAME_WIDTH,
            height: FRAME_HEIGHT,
            pixels: scaled_pixels(
                self.width,
                self.height,
                &self.pixels,
                FRAME_WIDTH,
                FRAME_HEIGHT,
            ),
        }
    }
}

impl Clone for RgbaPixels {
    fn clone(&self) -> (copy: Self)
        ensures
            copy@ == self@,
    {
        RgbaPixels {
            width: self.width,
            height: self.height,
            pixels: crate::paths::copy_bytes(&self.pixels),
        }
    }
}

// ---------------------------------------------------------------------------
// Laws
// ---------------------------------------------------------------------------

/// A buffer holds an image where it has four bytes for each of its pixels.
pub proof fn law_buffer_fits(width: u32, height: u32, len: nat)
    requires
        4 * width <= usize::MAX,
    ensures
        buffer_fits(width, height, len) <==> 4 * width * height <= len,
{
}

/// Every image with a full buffer whose sides have half a million pixels at most can
/// be stored and shown.
pub proof fn law_storable(image: PixelsView)
    requires
        image.width <= 0x8_0000,
        image.height <= 0x8_0000,
        4 * image.width * image.height <= image.pixels.len(),
    ensures
        image.storable(),
        image.showable(),
{
    lemma_share_product(image.width, image.height, 196, 196);
    lemma_share_product(image.width, image.height, 320, 168);
}

proof fn lemma_share_product(width: u32, height: u32, new_width: u32, new_height: u32)
    requires
        width <= 0x8_0000,
        height <= 0x8_0000,
        168 <= new_width <= 1024,
        168 <= new_height <= 1024,
    ensures
        thumbnail_fits(width, height, new_width, new_height),
{
    let columns = share_bound(width, new_width);
    let rows = share_bound(height, new_height);
    assert(0 <= width / new_width <= 3121) by (nonlinear_arith)
        requires
            width <= 0x8_0000,
            168 <= new_width,
    ;
    assert(0 <= height / new_height <= 3121) by (nonlinear_arith)
        requires
            height <= 0x8_0000,
            168 <= new_height,
    ;
    assert(columns * rows * 256 <= u32::MAX) by (nonlinear_arith)
        requires
            0 <= columns <= 3124,
            0 <= rows <= 3124,
    ;
}

/// An image whose buffer is too short can neither be stored nor shown.
pub proof fn law_short_buffer(image: PixelsView)
    requires
        image.pixels.len() < 4 * image.width * image.height,
    ensures
        !image.storable(),
        !image.showable(),
{
}

} // verus!
