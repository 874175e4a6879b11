//! Drawing a wave as a band around the middle row of an image.
//!
//! The samples are cut into as many equal windows as the image has columns.
//! In each column the greatest sample of its window sets where the band ends
//! and the least sample where it begins; the band is drawn in the foreground
//! colour and the rest of the column in the background colour. Channels are
//! not told apart: a window is a run of the interleaved samples as they
//! come.
//!
//! Rows are found by exact arithmetic. The greatest sample is carried from
//! `[zero, max]` onto the rows `[height / 2, height]`, the least from
//! `[min, zero]` onto `[0, height / 2]`; each is clamped to its range and
//! then rounded once to the nearest row, a tie going to the higher row.
//! `height / 2` is half the height exactly, so the ranges are handed to the
//! mapper in half rows.

use crate::color::Color;
use crate::error::GeometryFault;
use crate::error::ThumbnailError;
use crate::range::clamp_scale;
use crate::range::clamped_num;
use crate::range::lemma_clamp_scale_within;
use crate::range::lemma_round_half;
use crate::range::lemma_round_monotonic;
use crate::range::lemma_scale_endpoints;
use crate::range::round_half_away;
use crate::range::scaled_den;
use crate::range::scaled_num;
use crate::raster::dimensions_fit;
use crate::raster::fits_in_buffer;
use crate::raster::image_pixels;
use crate::raster::lemma_source_column_in_range;
use crate::raster::saturating_cast;
use crate::raster::source_column;
use crate::raster::upscale_image;
use crate::raster::Image;
use crate::wave::lemma_window_constant;
use crate::wave::window_max;
use crate::wave::window_min;
use crate::wave::SampleDomain;
use crate::wave::Wave;
use crate::wave::WaveModel;
use vstd::prelude::*;

verus! {

/// The row that half the height rounds to: the row of silence.
pub open spec fn middle_row(height: int) -> int {
    (height + 1) / 2
}

/// The row at which the band of a column ends, for a window whose greatest
/// sample is `peak`.
pub open spec fn top_row(peak: int, domain: SampleDomain, height: int) -> int {
    round_half_away(
        clamped_num(peak, domain.zero as int, domain.max as int, height, 2 * height),
        2 * scaled_den(domain.zero as int, domain.max as int),
    )
}

/// The row at which the band of a column begins, for a window whose least
/// sample is `trough`.
pub open spec fn bottom_row(trough: int, domain: SampleDomain, height: int) -> int {
    round_half_away(
        clamped_num(trough, domain.min as int, domain.zero as int, 0, height),
        2 * scaled_den(domain.min as int, domain.zero as int),
    )
}

/// The colour of row `row` in a column whose band is `[bottom, top)`. The
/// band is empty where `bottom >= top`.
pub open spec fn band_color(row: int, bottom: int, top: int, fg: Color, bg: Color) -> Color {
    if bottom <= row < top {
        fg
    } else {
        bg
    }
}

/// The colour of the pixel at `(column, row)` when every column stands for
/// `window` consecutive samples of `wave`.
pub open spec fn column_color(
    wave: WaveModel,
    window: int,
    height: int,
    fg: Color,
    bg: Color,
    column: int,
    row: int,
) -> Color {
    let begin = column * window;
    let end = begin + window;
    band_color(
        row,
        bottom_row(window_min(wave.samples, begin, end), wave.domain, height),
        top_row(window_max(wave.samples, begin, end), wave.domain, height),
        fg,
        bg,
    )
}

/// The number of columns that are drawn from the samples themselves: the
/// requested width, or the number of frames where there are fewer.
pub open spec fn render_width(frame_count: int, width: int) -> int {
    if frame_count < width {
        frame_count
    } else {
        width
    }
}

/// The number of samples that each drawn column stands for.
pub open spec fn samples_per_pixel(wave: WaveModel, width: int) -> int {
    wave.sample_count() as int / render_width(wave.frame_count() as int, width)
}

/// What is wrong with a request for a `width` by `height` image of `wave`,
/// if anything; the first fault in this order is the one reported.
pub open spec fn geometry_fault(wave: WaveModel, width: int, height: int) -> Option<GeometryFault> {
    let columns = render_width(wave.frame_count() as int, width);
    if width == 0 {
        Some(GeometryFault::ZeroWidth)
    } else if height == 0 {
        Some(GeometryFault::ZeroHeight)
    } else if width > u32::MAX || height > u32::MAX || !fits_in_buffer(width, height) {
        Some(GeometryFault::TooLarge)
    } else if columns == 0 || wave.sample_count() < columns {
        Some(GeometryFault::TooFewSamples)
    } else {
        None
    }
}

/// Whether `img` is `wave` drawn column by column, before any resizing:
/// as wide as [`render_width`], `height` high, every pixel as
/// [`column_color`] has it.
pub open spec fn is_native_rendering(
    img: Image,
    wave: WaveModel,
    width: int,
    height: int,
    fg: Color,
    bg: Color,
) -> bool {
    &&& img.spec_width() == render_width(wave.frame_count() as int, width)
    &&& img.spec_height() == height
    &&& forall|x: int, y: int|
        img.contains(x, y) ==> #[trigger] img.pixel(x, y) == column_color(
            wave,
            samples_per_pixel(wave, width),
            height,
            fg,
            bg,
            x,
            y,
        )
}

/// Whether `img` is the finished thumbnail of `wave`: exactly `width` by
/// `height`, every column a copy of the drawn column nearest to its left.
/// Where the wave has at least `width` frames that is the column itself.
pub open spec fn is_thumbnail(
    img: Image,
    wave: WaveModel,
    width: int,
    height: int,
    fg: Color,
    bg: Color,
) -> bool {
    &&& img.spec_width() == width
    &&& img.spec_height() == height
    &&& forall|x: int, y: int|
        img.contains(x, y) ==> #[trigger] img.pixel(x, y) == column_color(
            wave,
            samples_per_pixel(wave, width),
            height,
            fg,
            bg,
            source_column(x, render_width(wave.frame_count() as int, width), width),
            y,
        )
}

/// The row at which the band ends for a window whose greatest sample is
/// `peak`: between the middle row and the height.
pub fn top_pixel(peak: i16, domain: SampleDomain, height: u32) -> (row: u32)
    requires
        domain.is_signed(),
    ensures
        row == top_row(peak as int, domain, height as int),
        middle_row(height as int) <= row <= height,
{
    let h: i64 = height as i64;
    let scaled = clamp_scale(peak as i64, domain.zero as i64, domain.max as i64, h, 2 * h);
    let halved = scaled.halved();
    proof {
        let den = scaled.den as int;
        lemma_round_half(h as int, den);
        lemma_round_half(2 * h, den);
        lemma_round_monotonic(h * den, scaled.num as int, 2 * den);
        lemma_round_monotonic(scaled.num as int, (2 * h) * den, 2 * den);
    }
    halved.round() as u32
}

/// The row at which the band begins for a window whose least sample is
/// `trough`: between row 0 and the middle row.
pub fn bottom_pixel(trough: i16, domain: SampleDomain, height: u32) -> (row: u32)
    requires
        domain.is_signed(),
    ensures
        row == bottom_row(trough as int, domain, height as int),
        0 <= row <= middle_row(height as int),
{
    let h: i64 = height as i64;
    let scaled = clamp_scale(trough as i64, domain.min as i64, domain.zero as i64, 0, h);
    let halved = scaled.halved();
    proof {
        let den = scaled.den as int;
        lemma_round_half(0, den);
        lemma_round_half(h as int, den);
        lemma_round_monotonic(0 * den, scaled.num as int, 2 * den);
        lemma_round_monotonic(scaled.num as int, h * den, 2 * den);
    }
    halved.round() as u32
}

/// Paints one column: the rows `[bottom, top)` in `fg`, the others in `bg`.
/// No other column changes.
fn paint_column(image: &mut Image, column: u32, bottom: u32, top: u32, fg: Color, bg: Color)
    requires
        column < old(image).spec_width(),
    ensures
        final(image).spec_width() == old(image).spec_width(),
        final(image).spec_height() == old(image).spec_height(),
        forall|y: int|
            0 <= y < old(image).spec_height() ==> #[trigger] image_pixels(*final(image))[(
                column as int,
                y,
            )] == band_color(y, bottom as int, top as int, fg, bg),
        forall|x: int, y: int|
            x != column ==> #[trigger] image_pixels(*final(image))[(x, y)] == image_pixels(
                *old(image),
            )[(x, y)],
{
    let height = image.buffer_height();
    let mut row: u32 = 0;
    while row < height
        invariant
            row <= height,
            height == image.spec_height(),
            image.spec_width() == old(image).spec_width(),
            image.spec_height() == old(image).spec_height(),
            column < image.spec_width(),
            forall|y: int|
                0 <= y < row ==> #[trigger] image_pixels(*image)[(column as int, y)] == band_color(
                    y,
                    bottom as int,
                    top as int,
                    fg,
                    bg,
                ),
            forall|x: int, y: int|
                x != column ==> #[trigger] image_pixels(*image)[(x, y)] == image_pixels(
                    *old(image),
                )[(x, y)],
        decreases height - row,
    {
        let color = if bottom <= row && row < top {
            fg
        } else {
            bg
        };
        image.buffer_put(column, row, color);
        row += 1;
    }
}

/// Draws `wave` at the resolution of its samples: one column for each of
/// [`render_width`] windows, `height` rows. Where the wave has fewer frames
/// than `width`, the image is that much narrower than requested;
/// [`draw_waveform`] widens it.
///
/// The request is checked before anything is drawn, and refused with the
/// first fault that [`geometry_fault`] finds.
pub fn draw_native(width: usize, height: usize, wave: &Wave, fg: Color, bg: Color) -> (r: Result<
    Image,
    ThumbnailError,
>)
    ensures
        wave@.wf(),
        match geometry_fault(wave@, width as int, height as int) {
            Some(fault) => r == Err::<Image, ThumbnailError>(
                ThumbnailError::DegenerateGeometry(fault),
            ),
            None => r is Ok && is_native_rendering(
                r->Ok_0,
                wave@,
                width as int,
                height as int,
                fg,
                bg,
            ),
        },
{
    let frames = wave.frame_count();
    let samples = wave.sample_count();
    let domain = wave.domain();
    if width == 0 {
        return Err(ThumbnailError::DegenerateGeometry(GeometryFault::ZeroWidth));
    }
    if height == 0 {
        return Err(ThumbnailError::DegenerateGeometry(GeometryFault::ZeroHeight));
    }
    if width > u32::MAX as usize || height > u32::MAX as usize {
        return Err(ThumbnailError::DegenerateGeometry(GeometryFault::TooLarge));
    }
    let rows: u32 = saturating_cast(height);
    if !dimensions_fit(saturating_cast(width), rows) {
        return Err(ThumbnailError::DegenerateGeometry(GeometryFault::TooLarge));
    }
    let columns: usize = if frames < width {
        frames
    } else {
        width
    };
    if columns == 0 || samples < columns {
        return Err(ThumbnailError::DegenerateGeometry(GeometryFault::TooFewSamples));
    }
    let window: usize = samples / columns;
    proof {
        assert(3 * columns * rows <= 3 * width * rows) by (nonlinear_arith)
            requires
                0 <= columns <= width,
                0 <= rows,
        ;
        lemma_windows_fit(samples as int, columns as int);
    }
    let mut image = Image::buffer_new(saturating_cast(columns), rows);
    let mut column: usize = 0;
    while column < columns
        invariant
            column <= columns <= u32::MAX,
            wave@.wf(),
            domain == wave@.domain,
            samples == wave@.samples.len(),
            window == samples as int / columns as int,
            window >= 1,
            columns * window <= samples,
            image.spec_width() == columns,
            image.spec_height() == rows,
            forall|x: int, y: int|
                0 <= x < column && 0 <= y < rows ==> #[trigger] image_pixels(image)[(x, y)]
                    == column_color(wave@, window as int, rows as int, fg, bg, x, y),
        decreases columns - column,
    {
        proof {
            assert(column * window + window <= columns * window) by (nonlinear_arith)
                requires
                    0 <= column < columns,
                    0 <= window,
            ;
        }
        let begin: usize = column * window;
        let (least, greatest) = wave.envelope(begin, begin + window);
        let top = top_pixel(greatest, domain, rows);
        let bottom = bottom_pixel(least, domain, rows);
        paint_column(&mut image, saturating_cast(column), bottom, top, fg, bg);
        column += 1;
    }
    Ok(image)
}

/// Draws `wave` as an image of exactly `width` by `height` pixels.
///
/// A wave with at least `width` frames is drawn column by column. A wave
/// with fewer frames is drawn with one column a frame and then widened to
/// `width` by nearest-neighbour sampling.
///
/// The request is checked before anything is drawn, and refused with the
/// first fault that [`geometry_fault`] finds.
pub fn draw_waveform(width: usize, height: usize, wave: &Wave, fg: Color, bg: Color) -> (r: Result<
    Image,
    ThumbnailError,
>)
    ensures
        wave@.wf(),
        match geometry_fault(wave@, width as int, height as int) {
            Some(fault) => r == Err::<Image, ThumbnailError>(
                ThumbnailError::DegenerateGeometry(fault),
            ),
            None => r is Ok && is_thumbnail(r->Ok_0, wave@, width as int, height as int, fg, bg),
        },
{
    let small_wave = wave.frame_count() < width;
    let native = match draw_native(width, height, wave, fg, bg) {
        Ok(image) => image,
        Err(error) => {
            return Err(error);
        },
    };
    if small_wave {
        let widened = upscale_image(&native, saturating_cast(width));
        proof {
            let out = widened->Ok_0;
            let columns = native.spec_width() as int;
            assert forall|x: int, y: int| out.contains(x, y) implies #[trigger] out.pixel(x, y)
                == column_color(
                wave@,
                samples_per_pixel(wave@, width as int),
                height as int,
                fg,
                bg,
                source_column(x, columns, width as int),
                y,
            ) by {
                lemma_source_column_in_range(x, columns, width as int);
                assert(native.contains(source_column(x, columns, width as int), y));
            }
        }
        widened
    } else {
        proof {
            assert forall|x: int, y: int| native.contains(x, y) implies source_column(
                x,
                width as int,
                width as int,
            ) == x by {
                assert((x * width) / (width as int) == x) by (nonlinear_arith)
                    requires
                        width > 0,
                ;
            }
        }
        Ok(native)
    }
}

/// Cutting `samples` samples into `columns` windows of
/// `samples / columns` each leaves no window empty and runs past no sample.
proof fn lemma_windows_fit(samples: int, columns: int)
    requires
        0 < columns <= samples,
    ensures
        samples / columns >= 1,
        columns * (samples / columns) <= samples,
{
    assert(samples / columns >= 1 && columns * (samples / columns) <= samples)
        by (nonlinear_arith)
        requires
            0 < columns <= samples,
    ;
}

/// A silent window, every sample at the zero of the domain, has its band
/// begin and end at the middle row: the band is empty and the whole column
/// is background.
pub proof fn lemma_silent_column(
    wave: WaveModel,
    window: int,
    height: int,
    fg: Color,
    bg: Color,
    column: int,
)
    requires
        wave.wf(),
        height >= 1,
        window >= 1,
        0 <= column,
        (column + 1) * window <= wave.samples.len(),
        forall|i: int|
            column * window <= i < (column + 1) * window ==> #[trigger] wave.samples[i]
                == wave.domain.zero,
    ensures
        top_row(window_max(wave.samples, column * window, column * window + window), wave.domain, height)
            == middle_row(height),
        bottom_row(
            window_min(wave.samples, column * window, column * window + window),
            wave.domain,
            height,
        ) == middle_row(height),
        forall|row: int| column_color(wave, window, height, fg, bg, column, row) == bg,
{
    let begin = column * window;
    lemma_window_bounds(column, window);
    lemma_window_constant(wave.samples, begin, begin + window, wave.domain.zero as i16);
    lemma_rows_at_zero(wave.domain, height);
}

/// A window at full scale, every sample at the greatest value of the
/// domain, has its band end at the height and begin at the middle row: the
/// foreground fills the rows from the middle row to the last.
pub proof fn lemma_full_scale_column(
    wave: WaveModel,
    window: int,
    height: int,
    fg: Color,
    bg: Color,
    column: int,
)
    requires
        wave.wf(),
        height >= 1,
        window >= 1,
        0 <= column,
        (column + 1) * window <= wave.samples.len(),
        forall|i: int|
            column * window <= i < (column + 1) * window ==> #[trigger] wave.samples[i]
                == wave.domain.max,
    ensures
        top_row(window_max(wave.samples, column * window, column * window + window), wave.domain, height)
            == height,
        bottom_row(
            window_min(wave.samples, column * window, column * window + window),
            wave.domain,
            height,
        ) == middle_row(height),
        forall|row: int|
            column_color(wave, window, height, fg, bg, column, row) == (if middle_row(height) <= row
                < height {
                fg
            } else {
                bg
            }),
{
    let begin = column * window;
    lemma_window_bounds(column, window);
    lemma_window_constant(wave.samples, begin, begin + window, wave.domain.max as i16);
    lemma_rows_at_max(wave.domain, height);
}

/// Window `column` of width `window` is `[column * window, (column + 1) * window)`.
proof fn lemma_window_bounds(column: int, window: int)
    requires
        0 <= column,
        window >= 1,
    ensures
        0 <= column * window < column * window + window == (column + 1) * window,
{
    assert(0 <= column * window && column * window + window == (column + 1) * window)
        by (nonlinear_arith)
        requires
            0 <= column,
            window >= 1,
    ;
}

/// At the zero of the domain both ends of the band are the middle row.
pub proof fn lemma_rows_at_zero(domain: SampleDomain, height: int)
    requires
        domain.is_signed(),
        height >= 0,
    ensures
        top_row(domain.zero as int, domain, height) == middle_row(height),
        bottom_row(domain.zero as int, domain, height) == middle_row(height),
{
    let zero = domain.zero as int;
    lemma_scale_endpoints(zero, domain.max as int, height, 2 * height);
    lemma_clamp_scale_within(zero, zero, domain.max as int, height, 2 * height);
    lemma_round_half(height, scaled_den(zero, domain.max as int));
    lemma_scale_endpoints(domain.min as int, zero, 0, height);
    lemma_clamp_scale_within(zero, domain.min as int, zero, 0, height);
    lemma_round_half(height, scaled_den(domain.min as int, zero));
}

/// At the greatest value of the domain the band ends at the height and
/// begins at the middle row.
pub proof fn lemma_rows_at_max(domain: SampleDomain, height: int)
    requires
        domain.is_signed(),
        height >= 0,
    ensures
        top_row(domain.max as int, domain, height) == height,
        bottom_row(domain.max as int, domain, height) == middle_row(height),
{
    let zero = domain.zero as int;
    let max = domain.max as int;
    let min = domain.min as int;
    lemma_scale_endpoints(zero, max, height, 2 * height);
    lemma_clamp_scale_within(max, zero, max, height, 2 * height);
    lemma_round_half(2 * height, scaled_den(zero, max));
    // Above zero the least sample is carried past the middle row, and held there.
    let den = scaled_den(min, zero);
    assert(scaled_num(max, min, zero, 0, height) == (max - min) * height) by (nonlinear_arith)
        requires
            min < zero,
            scaled_num(max, min, zero, 0, height) == 0 * (zero - min) + (max - min) * (height - 0),
    ;
    assert((max - min) * height >= height * den) by (nonlinear_arith)
        requires
            den == zero - min,
            zero == 0,
            max > 0,
            height >= 0,
    ;
    assert(0 * den == 0) by (nonlinear_arith);
    assert(0 <= height * den) by (nonlinear_arith)
        requires
            height >= 0,
            den > 0,
    ;
    lemma_round_half(height, den);
}

} // verus!
