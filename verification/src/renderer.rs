use vstd::prelude::*;

use crate::raster::{lemma_pixel_index_bounds, pixel_index, RgbaBuffer};
use crate::render::RenderError;

verus! {

/// Whether `width` by `height` RGBA `pixels` are an image that `image`
/// decodes from the bytes of an image file in the format that the file
/// name's extension names.
pub uninterp spec fn decodes_by_extension(path: Seq<char>, bytes: Seq<u8>, width: u32, height: u32, pixels: Seq<u8>) -> bool;

/// Whether the bytes decode to some image in the format the path names.
pub open spec fn decodable_by_extension(path: Seq<char>, bytes: Seq<u8>) -> bool {
    exists|width: u32, height: u32, pixels: Seq<u8>| #[trigger] decodes_by_extension(path, bytes, width, height, pixels)
}

/// Decodes an image file's bytes with `image::ImageReader` in the format
/// that `ImageFormat::from_path` reads off the file name, converted to
/// 8-bit RGBA. Claimed: an image that comes back is a decoding of the path
/// and bytes, in a buffer of exactly `width * height` pixels, and a failure
/// means that they have no decoding (the format lookup and the decoder fail
/// on the name and the content alone).
#[verifier::external_body]
fn decode_by_extension(path: &str, bytes: &[u8]) -> (r: Result<(u32, u32, Vec<u8>), image::ImageError>)
    ensures
        r matches Ok((w, h, px)) ==> decodes_by_extension(path@, bytes@, w, h, px@) && px@.len() == w * h * 4,
        r is Err ==> !decodable_by_extension(path@, bytes@),
{
    let mut reader = image::ImageReader::new(std::io::Cursor::new(bytes));
    if let Ok(format) = image::ImageFormat::from_path(path) {
        reader.set_format(format);
    }
    let rgba = reader.decode()?.into_rgba8();
    Ok((rgba.width(), rgba.height(), rgba.into_raw()))
}

/// A source coordinate kept inside an axis of `dim` pixels: past the last
/// pixel it takes the last one.
pub open spec fn clamped(coord: u32, dim: u32) -> int {
    if coord < dim { coord as int } else { dim - 1 }
}

/// Byte `c` of the BGRX pixel written for output pixel `(x, y)`: the source
/// pixel `(xs[x], ys[y])`, each coordinate clamped to the image, with red and
/// blue swapped, and an opaque fourth byte.
pub open spec fn sampled_byte(src: RgbaBuffer, xs: Seq<u32>, ys: Seq<u32>, x: int, y: int, c: int) -> u8 {
    if c == 3 {
        0xFF
    } else {
        src.pixels@[pixel_index(src.width as int, clamped(xs[x], src.width), clamped(ys[y], src.height), 2 - c)]
    }
}

/// The byte sampled for output pixel `(x, y)` is read from the source's
/// row-major buffer: channel `2 - c` (red and blue swapped) of the pixel in
/// row `ys[y]` and column `xs[x]`, each clamped to the last row or column;
/// the fourth byte is opaque.
pub proof fn lemma_sampled_byte_row_major(src: RgbaBuffer, xs: Seq<u32>, ys: Seq<u32>, x: int, y: int, c: int)
    requires
        0 <= c < 4,
    ensures
        sampled_byte(src, xs, ys, x, y, c) == (if c == 3 {
            0xFFu8
        } else {
            src.pixels@[((if ys[y] < src.height { ys[y] as int } else { src.height - 1 }) * src.width + (if xs[x] < src.width {
                xs[x] as int
            } else {
                src.width - 1
            })) * 4 + (2 - c)]
        }),
{
}

/// `dst` after `write_bgra` of `rgba` at pixel `(x, y)` of rows `width` pixels wide.
pub open spec fn bgra_written(dst: Seq<u8>, x: u32, y: u32, width: u32, rgba: [u8; 4]) -> Seq<u8> {
    let base = pixel_index(width as int, x as int, y as int, 0);
    dst.update(base, rgba[2]).update(base + 1, rgba[1]).update(base + 2, rgba[0]).update(base + 3, 0xFF)
}

/// Writes `rgba` as an opaque BGRX pixel at `(x, y)` of rows `width` pixels wide.
pub fn write_bgra(dst: &mut [u8], x: u32, y: u32, width: u32, rgba: [u8; 4])
    requires
        pixel_index(width as int, x as int, y as int, 0) <= u32::MAX,
        pixel_index(width as int, x as int, y as int, 4) <= old(dst)@.len(),
        y * width + x <= u32::MAX,
    ensures
        final(dst)@ == bgra_written(old(dst)@, x, y, width, rgba),
{
    let base = ((y * width + x) * 4) as usize;
    dst[base] = rgba[2];
    dst[base + 1] = rgba[1];
    dst[base + 2] = rgba[0];
    dst[base + 3] = 0xFF;
}

/// The size condition of `ImageRenderer::render`: every pixel's offset fits `u32`.
pub open spec fn offsets_fit_u32(width: u32, height: u32) -> bool {
    width * height == 0 || (width * height - 1) * 4 <= u32::MAX
}

/// A wallpaper image rendered by nearest-pixel sampling, scaled to cover the output.
pub struct ImageRenderer {
    src: RgbaBuffer,
}

impl ImageRenderer {
    /// The decoded image.
    pub closed spec fn source(self) -> RgbaBuffer {
        self.src
    }

    /// Decodes the bytes of the image file at `path` in the format its extension names.
    pub fn open(path: &str, bytes: &[u8]) -> (r: Result<ImageRenderer, RenderError>)
        ensures
            r is Ok <==> decodable_by_extension(path@, bytes@),
            r matches Ok(renderer) ==> renderer.source().wf() && decodes_by_extension(
                path@,
                bytes@,
                renderer.source().width,
                renderer.source().height,
                renderer.source().pixels@,
            ),
    {
        match decode_by_extension(path, bytes) {
            Ok((width, height, pixels)) => Ok(ImageRenderer { src: RgbaBuffer { width, height, pixels } }),
            Err(e) => Err(RenderError::Decode(e)),
        }
    }

    /// Renders `width` by `height` opaque BGRX pixels into `dst`: output
    /// pixel `(x, y)` is source pixel `(xs[x], ys[y])`, each coordinate
    /// clamped to the image. `xs` and `ys` are the source column and row of
    /// each output column and row, which the caller derives from the cover
    /// scale.
    pub fn render(&self, width: u32, height: u32, dst: &mut [u8], xs: &[u32], ys: &[u32])
        requires
            self.source().wf(),
            xs@.len() == width,
            ys@.len() == height,
            width > 0 && height > 0 ==> self.source().width > 0 && self.source().height > 0,
            offsets_fit_u32(width, height),
            width * height * 4 <= old(dst)@.len(),
        ensures
            final(dst)@.len() == old(dst)@.len(),
            forall|x: int, y: int, c: int|
                #![trigger final(dst)@[pixel_index(width as int, x, y, c)]]
                0 <= x < width && 0 <= y < height && 0 <= c < 4 ==> final(dst)@[pixel_index(width as int, x, y, c)]
                    == sampled_byte(self.source(), xs@, ys@, x, y, c),
            forall|i: int| width * height * 4 <= i < old(dst)@.len() ==> #[trigger] final(dst)@[i] == old(dst)@[i],
            forall|x: int, y: int, c: int|
                #![trigger final(dst)@[pixel_index(width as int, x, y, c)]]
                0 <= x < width && 0 <= y < height && 0 <= c < 3 ==> final(dst)@[pixel_index(width as int, x, y, c)]
                    == self.source().pixels@[((if ys@[y] < self.source().height { ys@[y] as int } else { self.source().height - 1 })
                    * self.source().width + (if xs@[x] < self.source().width { xs@[x] as int } else { self.source().width - 1 }))
                    * 4 + (2 - c)],
            forall|x: int, y: int|
                0 <= x < width && 0 <= y < height ==> #[trigger] final(dst)@[pixel_index(width as int, x, y, 3)] == 0xFF,
    {
        let ghost start = dst@;
        let ghost src = self.src;
        let sw = self.src.width;
        let sh = self.src.height;
        let slen = self.src.pixels.len();
        let mut y: u32 = 0;
        while y < height
            invariant
                src == self.src,
                src.wf(),
                slen == src.pixels@.len(),
                sw == src.width,
                sh == src.height,
                y <= height,
                xs@.len() == width,
                ys@.len() == height,
                width > 0 && height > 0 ==> sw > 0 && sh > 0,
                offsets_fit_u32(width, height),
                width * height * 4 <= start.len(),
                dst@.len() == start.len(),
                forall|px: int, py: int, c: int|
                    #![trigger dst@[pixel_index(width as int, px, py, c)]]
                    0 <= px < width && 0 <= py < height && 0 <= c < 4 && py * width + px < y * width ==> dst@[pixel_index(width as int, px, py, c)]
                        == sampled_byte(src, xs@, ys@, px, py, c),
                forall|i: int| (y * width) * 4 <= i < start.len() ==> #[trigger] dst@[i] == start[i],
            decreases height - y,
        {
            let ys_y = ys[y as usize];
            let mut x: u32 = 0;
            while x < width
                invariant
                    src == self.src,
                    src.wf(),
                    slen == src.pixels@.len(),
                    sw == src.width,
                    sh == src.height,
                    y < height,
                    x <= width,
                    ys_y == ys@[y as int],
                    xs@.len() == width,
                    ys@.len() == height,
                    width > 0 ==> sw > 0 && sh > 0,
                    offsets_fit_u32(width, height),
                    width * height * 4 <= start.len(),
                    dst@.len() == start.len(),
                    forall|px: int, py: int, c: int|
                        #![trigger dst@[pixel_index(width as int, px, py, c)]]
                        0 <= px < width && 0 <= py < height && 0 <= c < 4 && py * width + px < y * width + x ==> dst@[pixel_index(width as int, px, py, c)]
                            == sampled_byte(src, xs@, ys@, px, py, c),
                    forall|i: int| (y * width + x) * 4 <= i < start.len() ==> #[trigger] dst@[i] == start[i],
                decreases width - x,
            {
                let xs_x = xs[x as usize];
                let src_x = if xs_x < sw { xs_x } else { sw - 1 };
                let src_y = if ys_y < sh { ys_y } else { sh - 1 };
                proof {
                    lemma_pixel_index_bounds(sw as int, sh as int, src_x as int, src_y as int);
                    lemma_pixel_index_bounds(width as int, height as int, x as int, y as int);
                }
                let sbase = (src_y as usize * sw as usize + src_x as usize) * 4;
                let rgba = [
                    self.src.pixels[sbase],
                    self.src.pixels[sbase + 1],
                    self.src.pixels[sbase + 2],
                    self.src.pixels[sbase + 3],
                ];
                let ghost before = dst@;
                let ghost p = y * width + x;
                write_bgra(dst, x, y, width, rgba);
                proof {
                    assert forall|px: int, py: int, c: int|
                        0 <= px < width && 0 <= py < height && 0 <= c < 4 && py * width + px < p + 1 implies #[trigger] dst@[pixel_index(width as int, px, py, c)]
                            == sampled_byte(src, xs@, ys@, px, py, c) by {
                        if py * width + px < p {
                            assert(before[pixel_index(width as int, px, py, c)] == sampled_byte(src, xs@, ys@, px, py, c));
                        } else {
                            assert(py * width + px == p);
                            assert(px == x && py == y) by (nonlinear_arith)
                                requires
                                    py * width + px == y * width + x,
                                    0 <= px < width,
                                    0 <= x < width,
                                    0 <= py,
                                    0 <= y,
                            ;
                        }
                    }
                }
                x = x + 1;
            }
            assert(y * width + width == (y + 1) * width) by (nonlinear_arith);
            y = y + 1;
        }
        assert(height * width * 4 == width * height * 4) by (nonlinear_arith);
        assert forall|px: int, py: int, c: int|
            0 <= px < width && 0 <= py < height && 0 <= c < 4 implies #[trigger] dst@[pixel_index(width as int, px, py, c)]
                == sampled_byte(src, xs@, ys@, px, py, c) by {
            assert(py * width + px < height * width) by (nonlinear_arith)
                requires
                    0 <= px < width,
                    0 <= py < height,
            ;
        }
        assert forall|px: int, py: int, c: int|
            0 <= px < width && 0 <= py < height && 0 <= c < 4 implies #[trigger] dst@[pixel_index(width as int, px, py, c)]
                == (if c == 3 {
                0xFFu8
            } else {
                src.pixels@[((if ys@[py] < src.height { ys@[py] as int } else { src.height - 1 }) * src.width + (if xs@[px]
                    < src.width { xs@[px] as int } else { src.width - 1 })) * 4 + (2 - c)]
            }) by {
            lemma_sampled_byte_row_major(src, xs@, ys@, px, py, c);
        }
    }
}

} // verus!
