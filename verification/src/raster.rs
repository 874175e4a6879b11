//! The pixel grid that a waveform is drawn on.
//!
//! The grid is an RGB buffer of the `image` crate. Verus does not look inside
//! it: what the buffer holds is named by [`image_width`], [`image_height`] and
//! [`image_pixels`], and the few buffer operations that drawing needs are
//! stated over those names.

use crate::color::Color;
use crate::error::GeometryFault;
use crate::error::ThumbnailError;
use vstd::prelude::*;

verus! {

/// A grid of colours, `width` columns by `height` rows. Column 0 is the
/// leftmost, row 0 the first row of the buffer.
#[verifier::external_body]
pub struct Image {
    buffer: image::RgbImage,
}

/// Number of columns of the buffer.
pub uninterp spec fn image_width(img: Image) -> nat;

/// Number of rows of the buffer.
pub uninterp spec fn image_height(img: Image) -> nat;

/// The colour of each pixel of the buffer, by `(column, row)`.
pub uninterp spec fn image_pixels(img: Image) -> Map<(int, int), Color>;

/// Whether a grid of `width` by `height` RGB pixels fits in one buffer, at
/// three bytes a pixel: the byte length of one row can be counted in a
/// `usize`, and all rows together are no more bytes than a vector can hold.
/// The first matters where there are no rows at all: a row too long to
/// count is refused whatever the height.
pub open spec fn fits_in_buffer(width: int, height: int) -> bool {
    3 * width <= usize::MAX && 3 * width * height <= isize::MAX
}

/// `value` as a `u32`, or the greatest `u32` where it does not fit.
pub fn saturating_cast(value: usize) -> (r: u32)
    ensures
        value <= u32::MAX ==> r == value,
        value > u32::MAX ==> r == u32::MAX,
{
    if value > u32::MAX as usize {
        u32::MAX
    } else {
        value as u32
    }
}

impl Image {
    /// Number of columns.
    pub open spec fn spec_width(self) -> nat {
        image_width(self)
    }

    /// Number of rows.
    pub open spec fn spec_height(self) -> nat {
        image_height(self)
    }

    /// Whether `(x, y)` is a pixel of this image.
    pub open spec fn contains(self, x: int, y: int) -> bool {
        0 <= x < image_width(self) && 0 <= y < image_height(self)
    }

    /// The colour at column `x`, row `y`.
    pub open spec fn pixel(self, x: int, y: int) -> Color {
        image_pixels(self)[(x, y)]
    }

    /// The outside constructor `ImageBuffer::new`: a buffer of the given
    /// dimensions with every channel of every pixel zero. The outside
    /// function counts the bytes as channels times width, then times
    /// height, and panics where either product overflows a `usize`; the
    /// vector it then allocates panics above `isize::MAX` bytes. All three
    /// are ruled out by requiring that the dimensions fit.
    #[verifier::external_body]
    pub(crate) fn buffer_new(width: u32, height: u32) -> (img: Image)
        requires
            fits_in_buffer(width as int, height as int),
        ensures
            image_width(img) == width,
            image_height(img) == height,
            forall|x: int, y: int|
                0 <= x < width && 0 <= y < height ==> #[trigger] image_pixels(img)[(x, y)] == (Color {
                    r: 0,
                    g: 0,
                    b: 0,
                }),
    {
        Image { buffer: image::RgbImage::new(width, height) }
    }

    /// The outside method `ImageBuffer::width`.
    #[verifier::external_body]
    pub(crate) fn buffer_width(&self) -> (w: u32)
        ensures
            w == image_width(*self),
    {
        self.buffer.width()
    }

    /// The outside method `ImageBuffer::height`.
    #[verifier::external_body]
    pub(crate) fn buffer_height(&self) -> (h: u32)
        ensures
            h == image_height(*self),
    {
        self.buffer.height()
    }

    /// The outside method `ImageBuffer::get_pixel`: the pixel at column `x`,
    /// row `y`, its three channels in the order red, green, blue. The
    /// outside method panics outside the image.
    #[verifier::external_body]
    pub(crate) fn buffer_get(&self, x: u32, y: u32) -> (c: Color)
        requires
            x < image_width(*self),
            y < image_height(*self),
        ensures
            c == image_pixels(*self)[(x as int, y as int)],
    {
        let pixel = self.buffer.get_pixel(x, y);
        Color { r: pixel.0[0], g: pixel.0[1], b: pixel.0[2] }
    }

    /// The outside method `ImageBuffer::put_pixel`: the pixel at column `x`,
    /// row `y` becomes `color`, and nothing else changes. The outside method
    /// panics outside the image.
    #[verifier::external_body]
    pub(crate) fn buffer_put(&mut self, x: u32, y: u32, color: Color)
        requires
            x < image_width(*old(self)),
            y < image_height(*old(self)),
        ensures
            image_width(*final(self)) == image_width(*old(self)),
            image_height(*final(self)) == image_height(*old(self)),
            image_pixels(*final(self)) == image_pixels(*old(self)).insert(
                (x as int, y as int),
                color,
            ),
    {
        self.buffer.put_pixel(x, y, image::Rgb([color.r, color.g, color.b]));
    }

    /// An image of the given dimensions, every pixel black; `None` where a
    /// buffer cannot hold that many pixels.
    pub fn new(width: u32, height: u32) -> (r: Option<Image>)
        ensures
            r is Some <==> fits_in_buffer(width as int, height as int),
            r matches Some(img) ==> {
                &&& img.spec_width() == width
                &&& img.spec_height() == height
                &&& forall|x: int, y: int|
                    img.contains(x, y) ==> #[trigger] img.pixel(x, y) == (Color { r: 0, g: 0, b: 0 })
            },
    {
        if dimensions_fit(width, height) {
            Some(Image::buffer_new(width, height))
        } else {
            None
        }
    }

    /// Number of columns.
    pub fn width(&self) -> (w: u32)
        ensures
            w == self.spec_width(),
    {
        self.buffer_width()
    }

    /// Number of rows.
    pub fn height(&self) -> (h: u32)
        ensures
            h == self.spec_height(),
    {
        self.buffer_height()
    }

    /// The colour at column `x`, row `y`; `None` outside the image.
    pub fn get_pixel(&self, x: u32, y: u32) -> (r: Option<Color>)
        ensures
            self.contains(x as int, y as int) ==> r == Some(self.pixel(x as int, y as int)),
            !self.contains(x as int, y as int) ==> r is None,
    {
        if x < self.buffer_width() && y < self.buffer_height() {
            Some(self.buffer_get(x, y))
        } else {
            None
        }
    }

    /// Sets the colour at column `x`, row `y`, and says whether there is
    /// such a pixel. Outside the image nothing changes.
    pub fn put_pixel(&mut self, x: u32, y: u32, color: Color) -> (done: bool)
        ensures
            done == old(self).contains(x as int, y as int),
            final(self).spec_width() == old(self).spec_width(),
            final(self).spec_height() == old(self).spec_height(),
            done ==> image_pixels(*final(self)) == image_pixels(*old(self)).insert(
                (x as int, y as int),
                color,
            ),
            !done ==> *final(self) == *old(self),
    {
        if x < self.buffer_width() && y < self.buffer_height() {
            self.buffer_put(x, y, color);
            true
        } else {
            false
        }
    }
}

/// The source column that column `column` of a resized image copies, when an
/// image `source_width` wide is resized to `new_width`: the nearest one to
/// its left, `floor(column * source_width / new_width)`.
pub open spec fn source_column(column: int, source_width: int, new_width: int) -> int {
    column * source_width / new_width
}

/// Whether `out` is `source` resized to the width `new_width`, each column
/// copied whole from its source column and the height kept.
pub open spec fn is_upscaled(out: Image, source: Image, new_width: int) -> bool {
    &&& out.spec_width() == new_width
    &&& out.spec_height() == source.spec_height()
    &&& forall|x: int, y: int|
        out.contains(x, y) ==> #[trigger] out.pixel(x, y) == source.pixel(
            source_column(x, source.spec_width() as int, new_width),
            y,
        )
}

/// The source column of a column of the resized image is a column of the
/// source.
pub proof fn lemma_source_column_in_range(column: int, source_width: int, new_width: int)
    requires
        0 <= column < new_width,
        0 < source_width,
    ensures
        0 <= source_column(column, source_width, new_width) < source_width,
{
    assert(0 <= column * source_width < new_width * source_width) by (nonlinear_arith)
        requires
            0 <= column < new_width,
            0 < source_width,
    ;
    assert(0 <= (column * source_width) / new_width < source_width) by (nonlinear_arith)
        requires
            0 <= column * source_width < new_width * source_width,
            0 < new_width,
    ;
}

/// Resizes `image` to the width `new_width` by nearest-neighbour sampling
/// along the rows; the height is kept and no colour is blended.
///
/// An image without columns has nothing to copy from and is refused, and so
/// is a result too large for a buffer.
pub fn upscale_image(image: &Image, new_width: u32) -> (r: Result<Image, ThumbnailError>)
    ensures
        image.spec_width() == 0 ==> r == Err::<Image, ThumbnailError>(
            ThumbnailError::DegenerateGeometry(GeometryFault::ZeroWidth),
        ),
        image.spec_width() > 0 && !fits_in_buffer(new_width as int, image.spec_height() as int)
            ==> r == Err::<Image, ThumbnailError>(
            ThumbnailError::DegenerateGeometry(GeometryFault::TooLarge),
        ),
        image.spec_width() > 0 && fits_in_buffer(new_width as int, image.spec_height() as int)
            ==> r is Ok && is_upscaled(r->Ok_0, *image, new_width as int),
{
    let source_width = image.buffer_width();
    let height = image.buffer_height();
    if source_width == 0 {
        return Err(ThumbnailError::DegenerateGeometry(GeometryFault::ZeroWidth));
    }
    if !dimensions_fit(new_width, height) {
        return Err(ThumbnailError::DegenerateGeometry(GeometryFault::TooLarge));
    }
    let mut output = Image::buffer_new(new_width, height);
    let mut row: u32 = 0;
    while row < height
        invariant
            row <= height,
            source_width == image.spec_width(),
            source_width > 0,
            height == image.spec_height(),
            output.spec_width() == new_width,
            output.spec_height() == height,
            forall|x: int, y: int|
                0 <= x < new_width && 0 <= y < row ==> #[trigger] image_pixels(output)[(x, y)]
                    == image.pixel(source_column(x, source_width as int, new_width as int), y),
        decreases height - row,
    {
        let mut column: u32 = 0;
        while column < new_width
            invariant
                column <= new_width,
                row < height,
                source_width == image.spec_width(),
                source_width > 0,
                height == image.spec_height(),
                output.spec_width() == new_width,
                output.spec_height() == height,
                forall|x: int, y: int|
                    0 <= x < new_width && 0 <= y < row ==> #[trigger] image_pixels(output)[(x, y)]
                        == image.pixel(source_column(x, source_width as int, new_width as int), y),
                forall|x: int|
                    0 <= x < column ==> #[trigger] image_pixels(output)[(x, row as int)]
                        == image.pixel(
                        source_column(x, source_width as int, new_width as int),
                        row as int,
                    ),
            decreases new_width - column,
        {
            proof {
                lemma_source_column_in_range(column as int, source_width as int, new_width as int);
                assert(column * source_width <= 0xffff_ffff * 0xffff_ffff) by (nonlinear_arith)
                    requires
                        0 <= column <= 0xffff_ffff,
                        0 <= source_width <= 0xffff_ffff,
                ;
            }
            let source: u64 = (column as u64) * (source_width as u64) / (new_width as u64);
            let color = image.buffer_get(source as u32, row);
            output.buffer_put(column, row, color);
            column += 1;
        }
        row += 1;
    }
    Ok(output)
}

/// Whether a grid of `width` by `height` pixels fits in one buffer.
pub fn dimensions_fit(width: u32, height: u32) -> (b: bool)
    ensures
        b == fits_in_buffer(width as int, height as int),
{
    let row: u128 = 3 * (width as u128);
    assert(row * height <= 0x3_0000_0000 * 0x1_0000_0000) by (nonlinear_arith)
        requires
            0 <= row <= 0x3_0000_0000,
            0 <= height <= 0x1_0000_0000,
    ;
    let bytes: u128 = row * (height as u128);
    row <= usize::MAX as u128 && bytes <= isize::MAX as u128
}

} // verus!
