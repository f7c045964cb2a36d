use vstd::prelude::*;

use fast_image_resize::images::{Image, ImageRef};
use fast_image_resize::{FilterType, PixelType, ResizeAlg, ResizeOptions, Resizer};
use image::ImageDecoder;

use crate::config::{convolution_of, ConvolutionFilter, CropGravity, Filter, ResizeConfig, ResizeStrategy};
use crate::raster::{crop, cropped_pixels, filled, filled_pixels, lemma_pixel_index_bounds, lemma_pixel_index_split, pixel_index, RgbaBuffer};

verus! {

#[verifier::external_type_specification]
#[verifier::external_body]
pub struct ExImageError(image::ImageError);

#[verifier::external_type_specification]
#[verifier::external_body]
pub struct ExImageBufferError(fast_image_resize::ImageBufferError);

#[verifier::external_type_specification]
#[verifier::external_body]
pub struct ExResizeError(fast_image_resize::ResizeError);

/// Why the channel swap refused its buffers.
#[derive(Clone, Copy, Debug, PartialEq, Eq, Structural)]
pub enum PixelFormatError {
    /// The source is empty or not a whole number of four-byte pixels.
    NotPixelAligned,
    /// The destination has room for fewer pixels than the source holds.
    PixelCountMismatch,
}

/// Why an image could not be decoded, resized or converted.
pub enum RenderError {
    /// The image's format could not be detected, or its data not decoded.
    Decode(image::ImageError),
    /// The resizer refused the source buffer.
    SourceBuffer(fast_image_resize::ImageBufferError),
    /// The resize operation failed.
    Resize(fast_image_resize::ResizeError),
    /// The channel swap to BGRA refused the buffers' sizes.
    PixelFormat(PixelFormatError),
}

/// Whether `width` by `height` RGBA `pixels` are an image that `image`
/// decodes from the bytes of an image file whose format it detects from the
/// content, turned upright as the file's orientation tag says.
pub uninterp spec fn decodes_upright(bytes: Seq<u8>, width: u32, height: u32, pixels: Seq<u8>) -> bool;

/// Whether the bytes decode to some upright image.
pub open spec fn decodable_upright(bytes: Seq<u8>) -> bool {
    exists|width: u32, height: u32, pixels: Seq<u8>| #[trigger] decodes_upright(bytes, width, height, pixels)
}

/// Whether `out` is an image that `fast_image_resize` makes of the
/// `src_width` by `src_height` RGBA image `src` when it scales it to
/// `width` by `height` with the convolution `filter`.
pub uninterp spec fn resized_by(
    src: Seq<u8>,
    src_width: u32,
    src_height: u32,
    width: u32,
    height: u32,
    filter: ConvolutionFilter,
    out: Seq<u8>,
) -> bool;

/// What `image::imageops::overlay` makes of `bottom` when it draws `top`
/// over it with its top-left corner at `(x, y)`, blending by the top's alpha.
pub uninterp spec fn overlaid(
    bottom: Seq<u8>,
    bottom_width: u32,
    bottom_height: u32,
    top: Seq<u8>,
    top_width: u32,
    top_height: u32,
    x: i64,
    y: i64,
) -> Seq<u8>;

/// The channel that channel `c` of a BGRA pixel is taken from in an RGBA one.
pub open spec fn swapped_channel(c: int) -> int {
    if c == 0 {
        2
    } else if c == 2 {
        0
    } else {
        c
    }
}

/// `dst` with the pixels of `src`, red and blue swapped, written over its first bytes.
pub open spec fn bgra_converted(src: Seq<u8>, dst: Seq<u8>) -> Seq<u8> {
    Seq::new(dst.len(), |i: int| if i < src.len() { src[i - i % 4 + swapped_channel(i % 4)] } else { dst[i] })
}

/// Converting a whole pixel `p` of the source writes its blue, green, red
/// and alpha bytes, in that order, at the pixel's place in the destination.
pub proof fn lemma_bgra_pixel(src: Seq<u8>, dst: Seq<u8>, p: int)
    requires
        0 <= p,
        p * 4 + 4 <= src.len(),
        src.len() <= dst.len(),
    ensures
        bgra_converted(src, dst)[p * 4] == src[p * 4 + 2],
        bgra_converted(src, dst)[p * 4 + 1] == src[p * 4 + 1],
        bgra_converted(src, dst)[p * 4 + 2] == src[p * 4],
        bgra_converted(src, dst)[p * 4 + 3] == src[p * 4 + 3],
{
    vstd::arithmetic::div_mod::lemma_fundamental_div_mod_converse_mod(p * 4, 4, p, 0);
    vstd::arithmetic::div_mod::lemma_fundamental_div_mod_converse_mod(p * 4 + 1, 4, p, 1);
    vstd::arithmetic::div_mod::lemma_fundamental_div_mod_converse_mod(p * 4 + 2, 4, p, 2);
    vstd::arithmetic::div_mod::lemma_fundamental_div_mod_converse_mod(p * 4 + 3, 4, p, 3);
}

/// Swapping red and blue twice gives the pixels back: converting the
/// converted bytes of whole pixels again restores them.
pub proof fn lemma_bgra_involution(s: Seq<u8>, d: Seq<u8>, e: Seq<u8>)
    requires
        s.len() % 4 == 0,
        d.len() == s.len(),
        e.len() == s.len(),
    ensures
        bgra_converted(bgra_converted(s, d), e) == s,
{
    let once = bgra_converted(s, d);
    assert forall|i: int| 0 <= i < s.len() implies #[trigger] bgra_converted(once, e)[i] == s[i] by {
        let j = i - i % 4 + swapped_channel(i % 4);
        assert(0 <= i % 4 < 4);
        assert(j - j % 4 == i - i % 4 && j % 4 == swapped_channel(i % 4)) by {
            let q = i / 4;
            assert(i == q * 4 + i % 4);
            assert(j == q * 4 + swapped_channel(i % 4));
            vstd::arithmetic::div_mod::lemma_fundamental_div_mod_converse_mod(j, 4, q, swapped_channel(i % 4));
        }
        assert(s.len() == (s.len() / 4) * 4);
        assert(j < s.len()) by {
            assert(i - i % 4 + 4 <= s.len()) by {
                vstd::arithmetic::div_mod::lemma_fundamental_div_mod(i, 4);
                vstd::arithmetic::div_mod::lemma_fundamental_div_mod(s.len() as int, 4);
                assert(i / 4 < s.len() / 4) by (nonlinear_arith)
                    requires
                        i == (i / 4) * 4 + i % 4,
                        s.len() == (s.len() / 4) * 4,
                        0 <= i % 4 < 4,
                        i < s.len(),
                ;
                assert((i / 4) * 4 + 4 <= s.len()) by (nonlinear_arith)
                    requires
                        i / 4 < s.len() / 4,
                        s.len() == (s.len() / 4) * 4,
                ;
            }
        }
        assert(once[j] == s[j - j % 4 + swapped_channel(j % 4)]);
    }
    assert(bgra_converted(once, e) =~= s);
}

/// The sizes that the channel swap accepts: whole pixels, at least one,
/// and room for all of them in the destination.
pub open spec fn bgra_convertible(src_len: nat, dst_len: nat) -> bool {
    src_len > 0 && src_len % 4 == 0 && dst_len >= src_len
}

/// Decodes an image file's bytes with `image`: `ImageReader` detects the
/// format from the content, the decoder reports the orientation, and
/// `DynamicImage` is turned upright and converted to 8-bit RGBA.
/// Claimed: an image that comes back is a decoding of the bytes, in a buffer
/// of exactly `width * height` pixels (`into_rgba8` allocates or keeps one of
/// that size), and a failure means that the bytes have no decoding (format
/// detection and decoding fail on the content alone).
#[verifier::external_body]
fn decode_upright(bytes: &[u8]) -> (r: Result<(u32, u32, Vec<u8>), image::ImageError>)
    ensures
        r matches Ok((w, h, px)) ==> decodes_upright(bytes@, w, h, px@) && px@.len() == w * h * 4,
        r is Err ==> !decodable_upright(bytes@),
{
    let reader = image::ImageReader::new(std::io::Cursor::new(bytes)).with_guessed_format()?;
    let mut decoder = reader.into_decoder()?;
    let orientation = decoder.orientation()?;
    let mut decoded = image::DynamicImage::from_decoder(decoder)?;
    decoded.apply_orientation(orientation);
    let rgba = decoded.into_rgba8();
    Ok((rgba.width(), rgba.height(), rgba.into_raw()))
}

/// What `image::imageops::overlay` is known to make of the pixels where
/// `top` lies wholly inside `bottom`: the pixels outside `top` are kept; under
/// it a top pixel of alpha 255 replaces the bottom pixel and one of alpha 0
/// keeps it.
pub open spec fn overlay_known(bottom: RgbaBuffer, top: RgbaBuffer, x: i64, y: i64, result: Seq<u8>) -> bool {
    0 <= x && 0 <= y && x + top.width <= bottom.width && y + top.height <= bottom.height ==> forall|px: int, py: int, c: int|
        #![trigger result[pixel_index(bottom.width as int, px, py, c)]]
        0 <= px < bottom.width && 0 <= py < bottom.height && 0 <= c < 4 ==> {
            let i = pixel_index(bottom.width as int, px, py, c);
            let inside = x <= px < x + top.width && y <= py < y + top.height;
            let alpha = top.pixels@[pixel_index(top.width as int, px - x, py - y, 3)];
            &&& !inside ==> result[i] == bottom.pixels@[i]
            &&& inside && alpha == 255 ==> result[i] == top.pixels@[pixel_index(top.width as int, px - x, py - y, c)]
            &&& inside && alpha == 0 ==> result[i] == bottom.pixels@[i]
        }
}

/// Draws `top` over `bottom` with `image::imageops::overlay`.
/// Required: four bytes times each width fits `usize`, as
/// `ImageBuffer::from_raw`'s size check computes it before the height.
/// Claimed: the result is the named result of the arguments, in `bottom`'s
/// buffer; where `top` lies wholly inside `bottom`, the pixels outside it are
/// kept, and under it a top pixel of alpha 255 replaces the bottom pixel and
/// one of alpha 0 keeps it (as `Rgba::blend` does).
#[verifier::external_body]
fn overlay(bottom: RgbaBuffer, top: RgbaBuffer, x: i64, y: i64) -> (r: RgbaBuffer)
    requires
        bottom.width * 4 <= usize::MAX,
        top.width * 4 <= usize::MAX,
        bottom.wf(),
        top.wf(),
    ensures
        r.wf(),
        r.width == bottom.width,
        r.height == bottom.height,
        r.pixels@ == overlaid(bottom.pixels@, bottom.width, bottom.height, top.pixels@, top.width, top.height, x, y),
        overlay_known(bottom, top, x, y, r.pixels@),
{
    let mut canvas = image::RgbaImage::from_raw(bottom.width, bottom.height, bottom.pixels).unwrap();
    let top_image = image::RgbaImage::from_raw(top.width, top.height, top.pixels).unwrap();
    image::imageops::overlay(&mut canvas, &top_image, x, y);
    RgbaBuffer { width: bottom.width, height: bottom.height, pixels: canvas.into_raw() }
}

/// Resizes `src` to `width` by `height` with `fast_image_resize::Resizer`
/// and the convolution `filter`.
/// Claimed: it succeeds (`ImageRef::new` accepts a buffer of the image's
/// size, any buffer is aligned for four-byte pixels, and without a crop
/// option the source box is the whole image); the result is a resize of the
/// source in the sense of the named relation, in a buffer of exactly
/// `width * height` pixels (`Image::new`'s); and where the sizes are equal it
/// is an exact copy (the resizer copies when the source box has the
/// destination's size).
#[verifier::external_body]
fn resize_pixels(src: &RgbaBuffer, width: u32, height: u32, filter: ConvolutionFilter) -> (r: Result<Vec<u8>, RenderError>)
    requires
        src.wf(),
        width * height * 4 <= usize::MAX,
    ensures
        r is Ok,
        r matches Ok(v) ==> v@.len() == width * height * 4 && resized_by(src.pixels@, src.width, src.height, width, height, filter, v@),
        r matches Ok(v) ==> (src.width == width && src.height == height ==> v@ == src.pixels@),
{
    let alg = ResizeAlg::Convolution(match filter {
        ConvolutionFilter::Box => FilterType::Box,
        ConvolutionFilter::Bilinear => FilterType::Bilinear,
        ConvolutionFilter::CatmullRom => FilterType::CatmullRom,
        ConvolutionFilter::Mitchell => FilterType::Mitchell,
        ConvolutionFilter::Lanczos3 => FilterType::Lanczos3,
    });
    let src_ref = ImageRef::new(src.width, src.height, &src.pixels, PixelType::U8x4).map_err(RenderError::SourceBuffer)?;
    let mut dst = Image::new(width, height, PixelType::U8x4);
    Resizer::new().resize(&src_ref, &mut dst, Some(&ResizeOptions::new().resize_alg(alg))).map_err(RenderError::Resize)?;
    Ok(dst.into_vec())
}

/// Copies the pixels of `src` into the first bytes of `dst`, swapping red
/// and blue; refuses a source that is empty or not whole pixels, and a
/// destination with room for fewer pixels.
pub fn rgba_to_bgra(src: &[u8], dst: &mut [u8]) -> (r: Result<(), PixelFormatError>)
    ensures
        r == Err::<(), PixelFormatError>(PixelFormatError::NotPixelAligned) <==> src@.len() == 0 || src@.len() % 4 != 0,
        r == Err::<(), PixelFormatError>(PixelFormatError::PixelCountMismatch) <==> src@.len() > 0 && src@.len() % 4 == 0
            && old(dst)@.len() < src@.len(),
        r is Ok <==> bgra_convertible(src@.len(), old(dst)@.len()),
        r is Ok ==> final(dst)@ == bgra_converted(src@, old(dst)@),
        r is Err ==> final(dst)@ == old(dst)@,
{
    let n = src.len();
    if n == 0 || n % 4 != 0 {
        return Err(PixelFormatError::NotPixelAligned);
    }
    if dst.len() < n {
        return Err(PixelFormatError::PixelCountMismatch);
    }
    let ghost before = dst@;
    let mut i: usize = 0;
    while i < n
        invariant
            i <= n,
            i % 4 == 0,
            n % 4 == 0,
            n == src@.len(),
            n <= before.len(),
            dst@.len() == before.len(),
            forall|j: int| 0 <= j < i ==> #[trigger] dst@[j] == src@[j - j % 4 + swapped_channel(j % 4)],
            forall|j: int| i <= j < before.len() ==> #[trigger] dst@[j] == before[j],
        decreases n - i,
    {
        assert(i + 4 <= n);
        dst[i] = src[i + 2];
        dst[i + 1] = src[i + 1];
        dst[i + 2] = src[i];
        dst[i + 3] = src[i + 3];
        proof {
            let q = (i / 4) as int;
            vstd::arithmetic::div_mod::lemma_fundamental_div_mod(i as int, 4);
            vstd::arithmetic::div_mod::lemma_fundamental_div_mod_converse_mod(i + 1, 4, q, 1);
            vstd::arithmetic::div_mod::lemma_fundamental_div_mod_converse_mod(i + 2, 4, q, 2);
            vstd::arithmetic::div_mod::lemma_fundamental_div_mod_converse_mod(i + 3, 4, q, 3);
            assert(dst@[i + 1] == src@[(i + 1) - (i + 1) % 4 + swapped_channel((i + 1) % 4)]);
        }
        i = i + 4;
    }
    assert(dst@ =~= bgra_converted(src@, before));
    Ok(())
}

/// The part of the source that `ResizeStrategy::No` keeps: all of it when it
/// fits, else its centered part of at most the output's size.
pub open spec fn kept_region(src_width: u32, src_height: u32, width: u32, height: u32) -> (u32, u32, u32, u32) {
    if src_width > width || src_height > height {
        (
            (if src_width > width { (src_width - width) / 2 } else { 0 }) as u32,
            (if src_height > height { (src_height - height) / 2 } else { 0 }) as u32,
            if width < src_width { width } else { src_width },
            if height < src_height { height } else { src_height },
        )
    } else {
        (0, 0, src_width, src_height)
    }
}

/// The offset that centers `inner` in `outer`, or 0 where it does not fit.
pub open spec fn centered_offset(outer: u32, inner: u32) -> i64 {
    (if outer > inner { (outer - inner) / 2 } else { 0 }) as i64
}

/// The pixels that `ResizeStrategy::No` makes: the kept part drawn centered
/// over a canvas of the fill colour.
pub open spec fn unscaled_pixels(src: Seq<u8>, src_width: u32, src_height: u32, width: u32, height: u32, fill: [u8; 4]) -> Seq<u8> {
    let (x, y, w, h) = kept_region(src_width, src_height, width, height);
    overlaid(
        filled_pixels(width, height, fill),
        width,
        height,
        cropped_pixels(src, src_width, x, y, w, h),
        w,
        h,
        centered_offset(width, w),
        centered_offset(height, h),
    )
}

/// What the `No` strategy is known to show at each output pixel: the fill
/// colour outside the placed image; inside it, the source pixel where that
/// is opaque and the fill colour where it is fully transparent.
pub open spec fn unscaled_layout(src: RgbaBuffer, width: u32, height: u32, fill: [u8; 4], result: Seq<u8>) -> bool {
    let (kx, ky, kw, kh) = kept_region(src.width, src.height, width, height);
    let ox = centered_offset(width, kw);
    let oy = centered_offset(height, kh);
    forall|px: int, py: int, c: int|
        #![trigger result[pixel_index(width as int, px, py, c)]]
        0 <= px < width && 0 <= py < height && 0 <= c < 4 ==> {
            let i = pixel_index(width as int, px, py, c);
            let inside = ox <= px < ox + kw && oy <= py < oy + kh;
            let sx = kx + px - ox;
            let sy = ky + py - oy;
            let alpha = src.pixels@[pixel_index(src.width as int, sx, sy, 3)];
            &&& !inside ==> result[i] == fill[c]
            &&& inside && alpha == 255 ==> result[i] == src.pixels@[pixel_index(src.width as int, sx, sy, c)]
            &&& inside && alpha == 0 ==> result[i] == fill[c]
        }
}

/// The image centered on a canvas of the fill colour without scaling,
/// cut to the canvas where it is larger.
pub fn resize_no(src: &RgbaBuffer, width: u32, height: u32, fill_color: [u8; 4]) -> (r: RgbaBuffer)
    requires
        src.wf(),
        width * height * 4 <= usize::MAX,
        width * 4 <= usize::MAX,
    ensures
        r.wf(),
        r.width == width,
        r.height == height,
        r.pixels@ == unscaled_pixels(src.pixels@, src.width, src.height, width, height, fill_color),
        unscaled_layout(*src, width, height, fill_color, r.pixels@),
        unscaled_centered(*src, width, height, fill_color, r.pixels@),
{
    let (src_w, src_h) = (src.width, src.height);
    let (x, y, w, h) = if src_w > width || src_h > height {
        let x = src_w.saturating_sub(width) / 2;
        let y = src_h.saturating_sub(height) / 2;
        (x, y, if width < src_w { width } else { src_w }, if height < src_h { height } else { src_h })
    } else {
        (0, 0, src_w, src_h)
    };
    let kept = crop(src, x, y, w, h);
    let ox = (width.saturating_sub(w) / 2) as i64;
    let oy = (height.saturating_sub(h) / 2) as i64;
    let canvas = filled(width, height, fill_color);
    let ghost bottom = canvas;
    let ghost top = kept;
    let out = overlay(canvas, kept, ox, oy);
    proof {
        assert(ox + w <= width && oy + h <= height);
        assert(kept_region(src.width, src.height, width, height) == (x, y, w, h));
        assert(centered_offset(width, w) == ox && centered_offset(height, h) == oy);
        assert forall|px: int, py: int, c: int|
            #![trigger out.pixels@[pixel_index(width as int, px, py, c)]]
            0 <= px < width && 0 <= py < height && 0 <= c < 4 implies {
                let i = pixel_index(width as int, px, py, c);
                let inside = ox <= px < ox + w && oy <= py < oy + h;
                let sx = x + px - ox;
                let sy = y + py - oy;
                let alpha = src.pixels@[pixel_index(src.width as int, sx, sy, 3)];
                &&& !inside ==> out.pixels@[i] == fill_color[c]
                &&& inside && alpha == 255 ==> out.pixels@[i] == src.pixels@[pixel_index(src.width as int, sx, sy, c)]
                &&& inside && alpha == 0 ==> out.pixels@[i] == fill_color[c]
            } by {
            let i = pixel_index(width as int, px, py, c);
            lemma_pixel_index_split(width as int, px, py, c);
            lemma_pixel_index_bounds(width as int, height as int, px, py);
            assert(bottom.pixels@[i] == fill_color[c]);
            if ox <= px < ox + w && oy <= py < oy + h {
                let tx = px - ox;
                let ty = py - oy;
                lemma_pixel_index_bounds(w as int, h as int, tx, ty);
                lemma_pixel_index_split(w as int, tx, ty, c);
                lemma_pixel_index_split(w as int, tx, ty, 3);
                assert(top.pixels@[pixel_index(w as int, tx, ty, c)] == src.pixels@[pixel_index(src.width as int, x + tx, y + ty, c)]);
                assert(top.pixels@[pixel_index(w as int, tx, ty, 3)] == src.pixels@[pixel_index(src.width as int, x + tx, y + ty, 3)]);
            }
        }
        lemma_unscaled_centers(*src, width, height, fill_color, out.pixels@);
    }
    out
}

/// `out` is the image scaled to `width` by `height` with `filter`: a resize
/// of it, and the image itself where the sizes are equal.
pub open spec fn stretched(src: RgbaBuffer, width: u32, height: u32, filter: ConvolutionFilter, out: Seq<u8>) -> bool {
    &&& out.len() == width * height * 4
    &&& resized_by(src.pixels@, src.width, src.height, width, height, filter, out)
    &&& src.width == width && src.height == height ==> out == src.pixels@
}

/// The image scaled to `width` by `height` with `filter`.
pub fn resize_stretch(src: &RgbaBuffer, width: u32, height: u32, filter: Filter) -> (r: Result<RgbaBuffer, RenderError>)
    requires
        src.wf(),
        width * height * 4 <= usize::MAX,
    ensures
        r is Ok,
        r matches Ok(out) ==> out.wf() && out.width == width && out.height == height && stretched(
            *src,
            width,
            height,
            convolution_of(filter),
            out.pixels@,
        ),
{
    let pixels = resize_pixels(src, width, height, ConvolutionFilter::from(filter))?;
    Ok(RgbaBuffer { width, height, pixels })
}

/// What is known of each output pixel when a `tw` by `th` image `top` that
/// fits the output is drawn centered over a canvas of the fill colour: the
/// fill colour outside it; inside it, the image's pixel where that is opaque
/// and the fill colour where it is fully transparent.
pub open spec fn placed_layout(top: Seq<u8>, tw: u32, th: u32, width: u32, height: u32, fill: [u8; 4], result: Seq<u8>) -> bool {
    let ox: int = (width - tw) / 2;
    let oy: int = (height - th) / 2;
    tw <= width && th <= height ==> forall|px: int, py: int, c: int|
        #![trigger result[pixel_index(width as int, px, py, c)]]
        0 <= px < width && 0 <= py < height && 0 <= c < 4 ==> {
            let i = pixel_index(width as int, px, py, c);
            let inside = ox <= px < ox + tw && oy <= py < oy + th;
            let alpha = top[((py - oy) * tw + (px - ox)) * 4 + 3];
            &&& !inside ==> result[i] == fill[c]
            &&& inside && alpha == 255 ==> result[i] == top[((py - oy) * tw + (px - ox)) * 4 + c]
            &&& inside && alpha == 0 ==> result[i] == fill[c]
        }
}

/// `pixels` is a canvas of the fill colour with the image, scaled to
/// `size` with `filter`, drawn centered over it.
pub open spec fn fitted_pixels(src: RgbaBuffer, width: u32, height: u32, fill: [u8; 4], filter: ConvolutionFilter, size: (u32, u32), pixels: Seq<u8>) -> bool {
    exists|scaled: Seq<u8>|
        #![trigger resized_by(src.pixels@, src.width, src.height, size.0, size.1, filter, scaled)]
        {
        &&& scaled.len() == size.0 * size.1 * 4
        &&& resized_by(src.pixels@, src.width, src.height, size.0, size.1, filter, scaled)
        &&& (src.width == size.0 && src.height == size.1 ==> scaled == src.pixels@)
        &&& pixels == overlaid(
            filled_pixels(width, height, fill),
            width,
            height,
            scaled,
            size.0,
            size.1,
            centered_offset(width, size.0),
            centered_offset(height, size.1),
        )
        &&& placed_layout(scaled, size.0, size.1, width, height, fill, pixels)
        }
}

/// The image scaled to `size`, the largest that fits the output at the
/// image's aspect ratio, and centered on a canvas of the fill colour.
pub fn resize_fit(src: &RgbaBuffer, width: u32, height: u32, fill_color: [u8; 4], filter: Filter, size: (u32, u32)) -> (r: Result<RgbaBuffer, RenderError>)
    requires
        src.wf(),
        width * height * 4 <= usize::MAX,
        width * 4 <= usize::MAX,
        size.0 * size.1 * 4 <= usize::MAX,
        size.0 * 4 <= usize::MAX,
    ensures
        r is Ok,
        r matches Ok(out) ==> out.wf() && out.width == width && out.height == height && fitted_pixels(
            *src,
            width,
            height,
            fill_color,
            convolution_of(filter),
            size,
            out.pixels@,
        ),
{
    let scaled = resize_stretch(src, size.0, size.1, filter)?;
    let ox = (width.saturating_sub(size.0) / 2) as i64;
    let oy = (height.saturating_sub(size.1) / 2) as i64;
    let canvas = filled(width, height, fill_color);
    let ghost top = scaled.pixels@;
    let ghost bottom = canvas;
    let ghost top_buffer = scaled;
    let out = overlay(canvas, scaled, ox, oy);
    assert(ox == centered_offset(width, size.0));
    assert(oy == centered_offset(height, size.1));
    proof {
        if size.0 <= width && size.1 <= height {
            assert forall|px: int, py: int, c: int|
                #![trigger out.pixels@[pixel_index(width as int, px, py, c)]]
                0 <= px < width && 0 <= py < height && 0 <= c < 4 implies {
                    let i = pixel_index(width as int, px, py, c);
                    let inside = ox <= px < ox + size.0 && oy <= py < oy + size.1;
                    let alpha = top[pixel_index(size.0 as int, px - ox, py - oy, 3)];
                    &&& !inside ==> out.pixels@[i] == fill_color[c]
                    &&& inside && alpha == 255 ==> out.pixels@[i] == top[pixel_index(size.0 as int, px - ox, py - oy, c)]
                    &&& inside && alpha == 0 ==> out.pixels@[i] == fill_color[c]
                } by {
                lemma_pixel_index_split(width as int, px, py, c);
                lemma_pixel_index_bounds(width as int, height as int, px, py);
                assert(bottom.pixels@[pixel_index(width as int, px, py, c)] == fill_color[c]);
            }
            assert(placed_layout(top, size.0, size.1, width, height, fill_color, out.pixels@));
        }
    }
    assert(top_buffer.pixels@ == top);
    assert(resized_by(src.pixels@, src.width, src.height, size.0, size.1, convolution_of(filter), top));
    Ok(out)
}

/// What the resize of `src` to `width` by `height` under `config` gives: an
/// image of the output's size; a copy where the sizes are equal; else the
/// unscaled placement, the crop's image, the fitted canvas, or the image
/// stretched to the output.
pub open spec fn resize_outcome<C: Fn(&RgbaBuffer, u32, u32, CropGravity, Filter) -> Result<RgbaBuffer, RenderError>>(
    src: RgbaBuffer,
    width: u32,
    height: u32,
    config: ResizeConfig,
    fit_size: (u32, u32),
    crop: C,
    out: RgbaBuffer,
) -> bool {
    &&& out.wf()
    &&& out.width == width
    &&& out.height == height
    &&& if src.width == width && src.height == height {
        out.pixels@ == src.pixels@
    } else {
        match config.strategy {
            ResizeStrategy::No => out.pixels@ == unscaled_pixels(src.pixels@, src.width, src.height, width, height, config.fill_color)
                && unscaled_layout(src, width, height, config.fill_color, out.pixels@),
            ResizeStrategy::Crop => call_ensures(
                crop,
                (&src, width, height, config.crop_gravity, config.filter),
                Ok::<RgbaBuffer, RenderError>(out),
            ),
            ResizeStrategy::Fit => fitted_pixels(src, width, height, config.fill_color, convolution_of(config.filter), fit_size, out.pixels@),
            ResizeStrategy::Stretch => stretched(src, width, height, convolution_of(config.filter), out.pixels@),
        }
    }
}

/// Under the `Stretch` strategy, an image whose size differs from the
/// output's is resized whole to exactly the output's size with the
/// configured filter, whatever the fit size and the fill colour.
pub proof fn lemma_stretch_resizes_to_output<C: Fn(&RgbaBuffer, u32, u32, CropGravity, Filter) -> Result<RgbaBuffer, RenderError>>(
    src: RgbaBuffer,
    width: u32,
    height: u32,
    config: ResizeConfig,
    fit_size: (u32, u32),
    crop: C,
    out: RgbaBuffer,
)
    requires
        config.strategy == ResizeStrategy::Stretch,
        !(src.width == width && src.height == height),
        resize_outcome(src, width, height, config, fit_size, crop, out),
    ensures
        out.width == width,
        out.height == height,
        out.pixels@.len() == width * height * 4,
        resized_by(src.pixels@, src.width, src.height, width, height, convolution_of(config.filter), out.pixels@),
{
}

/// The placement of the `No` strategy written out: a part of the image of
/// at most the output's size, cut from its center on each axis where it is
/// larger (half the overflow off the start, rounded down), is placed
/// centered on the output (half the spare room before it, rounded down).
/// Outside that part the output shows the fill colour; inside, output pixel
/// `(px, py)` shows the source pixel it covers, in the source's row-major
/// buffer, where that is opaque, and the fill colour where it is fully
/// transparent.
pub open spec fn unscaled_centered(src: RgbaBuffer, width: u32, height: u32, fill: [u8; 4], result: Seq<u8>) -> bool {
    let w: int = if width < src.width { width as int } else { src.width as int };
    let h: int = if height < src.height { height as int } else { src.height as int };
    let kx: int = if src.width > width { (src.width - width) / 2 } else { 0 };
    let ky: int = if src.height > height { (src.height - height) / 2 } else { 0 };
    let ox: int = (width - w) / 2;
    let oy: int = (height - h) / 2;
    forall|px: int, py: int, c: int|
        #![trigger result[pixel_index(width as int, px, py, c)]]
        0 <= px < width && 0 <= py < height && 0 <= c < 4 ==> {
            let i = pixel_index(width as int, px, py, c);
            let inside = ox <= px < ox + w && oy <= py < oy + h;
            let sx = kx + px - ox;
            let sy = ky + py - oy;
            let alpha = src.pixels@[(sy * src.width + sx) * 4 + 3];
            &&& !inside ==> result[i] == fill[c]
            &&& inside && alpha == 255 ==> result[i] == src.pixels@[(sy * src.width + sx) * 4 + c]
            &&& inside && alpha == 0 ==> result[i] == fill[c]
        }
}

/// The `No` strategy's layout is the centered placement written out.
pub proof fn lemma_unscaled_centers(src: RgbaBuffer, width: u32, height: u32, fill: [u8; 4], result: Seq<u8>)
    requires
        unscaled_layout(src, width, height, fill, result),
    ensures
        unscaled_centered(src, width, height, fill, result),
{
    let (kx, ky, kw, kh) = kept_region(src.width, src.height, width, height);
    let w: int = if width < src.width { width as int } else { src.width as int };
    let h: int = if height < src.height { height as int } else { src.height as int };
    assert(kw == w && kh == h);
    assert(kx == (if src.width > width { (src.width - width) / 2 } else { 0 }));
    assert(ky == (if src.height > height { (src.height - height) / 2 } else { 0 }));
    assert(centered_offset(width, kw) == (width - w) / 2);
    assert(centered_offset(height, kh) == (height - h) / 2);
}

/// Under the `No` strategy, an image whose size differs from the output's
/// is not scaled but cut to its center and centered, as `unscaled_centered`
/// writes out.
pub proof fn lemma_no_strategy_centers<C: Fn(&RgbaBuffer, u32, u32, CropGravity, Filter) -> Result<RgbaBuffer, RenderError>>(
    src: RgbaBuffer,
    width: u32,
    height: u32,
    config: ResizeConfig,
    fit_size: (u32, u32),
    crop: C,
    out: RgbaBuffer,
)
    requires
        config.strategy == ResizeStrategy::No,
        !(src.width == width && src.height == height),
        resize_outcome(src, width, height, config, fit_size, crop, out),
    ensures
        out.width == width,
        out.height == height,
        unscaled_centered(src, width, height, config.fill_color, out.pixels@),
{
    lemma_unscaled_centers(src, width, height, config.fill_color, out.pixels@);
}

/// The crop performer gives, for the arguments it is called with, only
/// images of the requested size.
pub open spec fn crop_keeps_size<C: Fn(&RgbaBuffer, u32, u32, CropGravity, Filter) -> Result<RgbaBuffer, RenderError>>(
    crop: C,
    src: RgbaBuffer,
    width: u32,
    height: u32,
    gravity: CropGravity,
    filter: Filter,
) -> bool {
    forall|r: Result<RgbaBuffer, RenderError>|
        #[trigger] call_ensures(crop, (&src, width, height, gravity, filter), r) ==> (r matches Ok(out) ==> out.wf()
            && out.width == width && out.height == height)
}

/// Resizes `src` to the output's size as `config` says. `fit_size` is the
/// size the `Fit` strategy scales to, and `crop` performs the `Crop`
/// strategy; both take floating-point geometry that the caller computes.
pub fn apply_resize<C>(src: &RgbaBuffer, width: u32, height: u32, config: &ResizeConfig, fit_size: (u32, u32), crop: C) -> (r: Result<RgbaBuffer, RenderError>)
    where
        C: Fn(&RgbaBuffer, u32, u32, CropGravity, Filter) -> Result<RgbaBuffer, RenderError>,
    requires
        src.wf(),
        width * height * 4 <= usize::MAX,
        width * 4 <= usize::MAX,
        fit_size.0 * fit_size.1 * 4 <= usize::MAX,
        fit_size.0 * 4 <= usize::MAX,
        config.strategy == ResizeStrategy::Crop ==> call_requires(crop, (src, width, height, config.crop_gravity, config.filter))
            && crop_keeps_size(crop, *src, width, height, config.crop_gravity, config.filter),
    ensures
        r matches Ok(out) ==> resize_outcome(*src, width, height, *config, fit_size, crop, out),
        !(src.width == width && src.height == height) && config.strategy == ResizeStrategy::Stretch ==> (r matches Ok(out)
            ==> resized_by(src.pixels@, src.width, src.height, width, height, convolution_of(config.filter), out.pixels@)),
        !(src.width == width && src.height == height) && config.strategy == ResizeStrategy::No ==> (r matches Ok(out)
            ==> unscaled_centered(*src, width, height, config.fill_color, out.pixels@)),
        (src.width == width && src.height == height) || config.strategy != ResizeStrategy::Crop ==> r is Ok,
        !(src.width == width && src.height == height) && config.strategy == ResizeStrategy::Crop ==> call_ensures(
            crop,
            (src, width, height, config.crop_gravity, config.filter),
            r,
        ),
{
    if src.width == width && src.height == height {
        let pixels = src.pixels.clone();
        proof {
            assert(pixels@ =~= src.pixels@);
        }
        return Ok(RgbaBuffer { width, height, pixels });
    }
    match config.strategy {
        ResizeStrategy::No => Ok(resize_no(src, width, height, config.fill_color)),
        ResizeStrategy::Crop => crop(src, width, height, config.crop_gravity, config.filter),
        ResizeStrategy::Fit => resize_fit(src, width, height, config.fill_color, config.filter, fit_size),
        ResizeStrategy::Stretch => resize_stretch(src, width, height, config.filter),
    }
}

/// A decoded wallpaper image, ready to be rendered at any output's size.
pub struct Render {
    rgba: RgbaBuffer,
}

impl Render {
    /// The decoded image.
    pub closed spec fn image(self) -> RgbaBuffer {
        self.rgba
    }

    /// The image is well formed.
    pub open spec fn wf(self) -> bool {
        self.image().wf()
    }

    /// Decodes the bytes of an image file: its format is detected from the
    /// content, and it is turned upright as its orientation tag says.
    pub fn new(bytes: &[u8]) -> (r: Result<Render, RenderError>)
        ensures
            r is Ok <==> decodable_upright(bytes@),
            r matches Ok(render) ==> render.wf() && decodes_upright(
                bytes@,
                render.image().width,
                render.image().height,
                render.image().pixels@,
            ),
    {
        match decode_upright(bytes) {
            Ok((width, height, pixels)) => Ok(Render { rgba: RgbaBuffer { width, height, pixels } }),
            Err(e) => Err(RenderError::Decode(e)),
        }
    }

    /// The image's width in pixels.
    pub fn width(&self) -> (r: u32)
        ensures
            r == self.image().width,
    {
        self.rgba.width
    }

    /// The image's height in pixels.
    pub fn height(&self) -> (r: u32)
        ensures
            r == self.image().height,
    {
        self.rgba.height
    }

    /// Renders the image at `width` by `height` into `dst` as BGRA, resized as `resize` says.
    pub fn render<C>(&self, width: u32, height: u32, dst: &mut [u8], resize: &ResizeConfig, fit_size: (u32, u32), crop: C) -> (r: Result<(), RenderError>)
        where
            C: Fn(&RgbaBuffer, u32, u32, CropGravity, Filter) -> Result<RgbaBuffer, RenderError>,
        requires
            self.wf(),
            width * height * 4 <= usize::MAX,
            width * 4 <= usize::MAX,
            fit_size.0 * fit_size.1 * 4 <= usize::MAX,
            fit_size.0 * 4 <= usize::MAX,
            resize.strategy == ResizeStrategy::Crop ==> call_requires(crop, (&self.image(), width, height, resize.crop_gravity, resize.filter))
                && crop_keeps_size(crop, self.image(), width, height, resize.crop_gravity, resize.filter),
        ensures
            r is Ok ==> exists|out: RgbaBuffer|
                {
                    &&& #[trigger] bgra_converted(out.pixels@, old(dst)@) == final(dst)@
                    &&& resize_outcome(self.image(), width, height, *resize, fit_size, crop, out)
                },
            r is Err ==> final(dst)@ == old(dst)@,
            !bgra_convertible((width * height * 4) as nat, old(dst)@.len()) ==> r is Err,
            (self.image().width == width && self.image().height == height) || resize.strategy != ResizeStrategy::Crop
                ==> (r is Ok <==> bgra_convertible((width * height * 4) as nat, old(dst)@.len())),
            r is Err && bgra_convertible((width * height * 4) as nat, old(dst)@.len()) ==> exists|e: RenderError|
                #[trigger] call_ensures(
                    crop,
                    (&self.image(), width, height, resize.crop_gravity, resize.filter),
                    Err::<RgbaBuffer, RenderError>(e),
                ),
    {
        let resized = match apply_resize(&self.rgba, width, height, resize, fit_size, crop) {
            Ok(out) => out,
            Err(e) => return Err(e),
        };
        match rgba_to_bgra(resized.pixels.as_slice(), dst) {
            Ok(()) => Ok(()),
            Err(e) => Err(RenderError::PixelFormat(e)),
        }
    }
}

} // verus!
