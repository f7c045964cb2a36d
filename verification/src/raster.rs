use vstd::prelude::*;
use vstd::arithmetic::div_mod::{lemma_fundamental_div_mod_converse_div, lemma_fundamental_div_mod_converse_mod};

verus! {

/// An 8-bit RGBA image: `width * height` pixels of four bytes, row by row.
pub struct RgbaBuffer {
    pub width: u32,
    pub height: u32,
    pub pixels: Vec<u8>,
}

impl RgbaBuffer {
    /// The pixel bytes are exactly the image's.
    pub open spec fn wf(&self) -> bool {
        self.pixels@.len() == self.width * self.height * 4
    }
}

/// The index of channel `c` of pixel `(x, y)` in a buffer of rows `width` pixels wide.
pub open spec fn pixel_index(width: int, x: int, y: int, c: int) -> int {
    (y * width + x) * 4 + c
}

/// The pixel bytes of a `width` by `height` image of one colour.
pub open spec fn filled_pixels(width: u32, height: u32, color: [u8; 4]) -> Seq<u8> {
    Seq::new((width * height * 4) as nat, |k: int| color[k % 4])
}

/// The pixel bytes of the `width` by `height` part of an image `src_width`
/// pixels wide whose top-left pixel is `(x, y)`.
pub open spec fn cropped_pixels(src: Seq<u8>, src_width: u32, x: u32, y: u32, width: u32, height: u32) -> Seq<u8> {
    Seq::new(
        (width * height * 4) as nat,
        |k: int| src[pixel_index(src_width as int, x + (k / 4) % (width as int), y + (k / 4) / (width as int), k % 4)],
    )
}

/// Byte `k` of a buffer `width` pixels wide is channel `k % 4` of pixel
/// `((k / 4) % width, (k / 4) / width)`, and the other way round.
pub proof fn lemma_pixel_index_split(width: int, x: int, y: int, c: int)
    requires
        width > 0,
        0 <= x < width,
        0 <= c < 4,
        y >= 0,
    ensures
        pixel_index(width, x, y, c) / 4 == y * width + x,
        pixel_index(width, x, y, c) % 4 == c,
        (pixel_index(width, x, y, c) / 4) % width == x,
        (pixel_index(width, x, y, c) / 4) / width == y,
{
    let k = pixel_index(width, x, y, c);
    let p = y * width + x;
    lemma_fundamental_div_mod_converse_div(k, 4, p, c);
    lemma_fundamental_div_mod_converse_mod(k, 4, p, c);
    assert(p == y * width + x);
    lemma_fundamental_div_mod_converse_div(p, width, y, x);
    lemma_fundamental_div_mod_converse_mod(p, width, y, x);
}

/// Pixels inside a `width` by `height` image have their bytes inside its buffer,
/// and pixel `(x, y)` comes right after the pixel before it in row order.
pub proof fn lemma_pixel_index_bounds(width: int, height: int, x: int, y: int)
    requires
        0 <= x < width,
        0 <= y < height,
    ensures
        0 <= pixel_index(width, x, y, 0),
        pixel_index(width, x, y, 0) + 4 <= width * height * 4,
        pixel_index(width, x, y, 0) == (y * width + x) * 4,
{
    assert(0 <= y * width + x) by (nonlinear_arith)
        requires
            0 <= x < width,
            0 <= y,
    ;
    assert(y * width + x + 1 <= width * height) by (nonlinear_arith)
        requires
            0 <= x < width,
            0 <= y < height,
    ;
}

/// A `width` by `height` image of one colour.
pub fn filled(width: u32, height: u32, color: [u8; 4]) -> (r: RgbaBuffer)
    requires
        width * height * 4 <= usize::MAX,
    ensures
        r.wf(),
        r.width == width,
        r.height == height,
        r.pixels@ == filled_pixels(width, height, color),
{
    let count = width as usize * height as usize;
    let mut pixels: Vec<u8> = Vec::with_capacity(count * 4);
    let mut p: usize = 0;
    while p < count
        invariant
            count == width * height,
            count * 4 <= usize::MAX,
            p <= count,
            pixels@.len() == p * 4,
            forall|k: int| 0 <= k < p * 4 ==> #[trigger] pixels@[k] == color[k % 4],
        decreases count - p,
    {
        let ghost base = p * 4;
        pixels.push(color[0]);
        pixels.push(color[1]);
        pixels.push(color[2]);
        pixels.push(color[3]);
        proof {
            assert forall|c: int| 0 <= c < 4 implies #[trigger] ((base + c) % 4) == c by {
                lemma_fundamental_div_mod_converse_mod(base + c, 4, p as int, c);
            }
            assert(((base + 0) % 4) == 0);
            assert(((base + 1) % 4) == 1);
            assert(((base + 2) % 4) == 2);
            assert(((base + 3) % 4) == 3);
        }
        p = p + 1;
    }
    let r = RgbaBuffer { width, height, pixels };
    assert(r.pixels@ =~= filled_pixels(width, height, color));
    r
}

/// The `width` by `height` part of `src` whose top-left pixel is `(x, y)`.
pub fn crop(src: &RgbaBuffer, x: u32, y: u32, width: u32, height: u32) -> (r: RgbaBuffer)
    requires
        src.wf(),
        x + width <= src.width,
        y + height <= src.height,
    ensures
        r.wf(),
        r.width == width,
        r.height == height,
        r.pixels@ == cropped_pixels(src.pixels@, src.width, x, y, width, height),
{
    let ghost sw = src.width as int;
    let ghost sh = src.height as int;
    assert(width * height <= sw * sh) by (nonlinear_arith)
        requires
            0 <= width <= sw,
            0 <= height <= sh,
    ;
    let slen = src.pixels.len();
    let mut pixels: Vec<u8> = Vec::new();
    let mut j: u32 = 0;
    while j < height
        invariant
            src.wf(),
            slen == src.pixels@.len(),
            sw == src.width,
            sh == src.height,
            x + width <= sw,
            y + height <= sh,
            width * height <= sw * sh,
            j <= height,
            pixels@.len() == j * width * 4,
            forall|k: int|
                0 <= k < j * width * 4 ==> #[trigger] pixels@[k] == cropped_pixels(src.pixels@, src.width, x, y, width, height)[k],
        decreases height - j,
    {
        let mut i: u32 = 0;
        while i < width
            invariant
                src.wf(),
                slen == src.pixels@.len(),
                sw == src.width,
                sh == src.height,
                x + width <= sw,
                y + height <= sh,
                width * height <= sw * sh,
                j < height,
                i <= width,
                pixels@.len() == (j * width + i) * 4,
                forall|k: int|
                    0 <= k < (j * width + i) * 4 ==> #[trigger] pixels@[k] == cropped_pixels(src.pixels@, src.width, x, y, width, height)[k],
            decreases width - i,
        {
            proof {
                lemma_pixel_index_bounds(sw, sh, (x + i) as int, (y + j) as int);
                lemma_pixel_index_bounds(width as int, height as int, i as int, j as int);
            }
            let base = ((y + j) as usize * src.width as usize + (x + i) as usize) * 4;
            let ghost start = pixels@.len() as int;
            let mut c: usize = 0;
            while c < 4
                invariant
                    src.wf(),
                    sw == src.width,
                    x + width <= sw,
                    y + height <= sh,
                    width * height <= sw * sh,
                    j < height,
                    i < width,
                    c <= 4,
                    start + 4 <= width * height * 4,
                    base == pixel_index(sw, (x + i) as int, (y + j) as int, 0),
                    base + 4 <= src.pixels@.len(),
                    start == (j * width + i) * 4,
                    pixels@.len() == start + c,
                    forall|k: int|
                        0 <= k < start + c ==> #[trigger] pixels@[k] == cropped_pixels(src.pixels@, src.width, x, y, width, height)[k],
                decreases 4 - c,
            {
                proof {
                    let k = start + c;
                    assert(k == pixel_index(width as int, i as int, j as int, c as int));
                    lemma_pixel_index_split(width as int, i as int, j as int, c as int);
                    assert(k < width * height * 4);
                }
                pixels.push(src.pixels[base + c]);
                c = c + 1;
            }
            i = i + 1;
        }
        assert((j * width + width) * 4 == (j + 1) * width * 4) by (nonlinear_arith);
        assert(j * width * 4 == (j * width + 0) * 4);
        j = j + 1;
    }
    assert(height * width * 4 == width * height * 4) by (nonlinear_arith);
    let r = RgbaBuffer { width, height, pixels };
    assert(r.pixels@ =~= cropped_pixels(src.pixels@, src.width, x, y, width, height));
    r
}

} // verus!
