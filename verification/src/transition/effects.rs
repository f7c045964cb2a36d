use vstd::prelude::*;

use crate::config::TransitionType;
use crate::raster::pixel_index;
use crate::pixel::{
    blend_into, blended, cleanup, converge_range, converged, converged_ranges, copy_into,
    lemma_converged_ranges_concat, lemma_converged_ranges_one, lemma_converged_ranges_two,
    whole_pixel_bytes, converge_byte_frames, lemma_converge_byte_frames, byte_distance,
    lemma_converged_ranges_closer, lemma_blend_byte, lemma_converge_byte, max_distance, lemma_max_distance,
    ranges_disjoint, lemma_converged_ranges_disjoint, lemma_blend_weights, converge_byte, covered, in_range,
};

verus! {

/// Whether a radial effect reveals the new image inside or outside its circle.
#[derive(Clone, Copy, Debug, PartialEq, Eq, Structural)]
pub enum RadialMode {
    Grow,
    Outer,
}

/// Alpha blend from the old image to the new one.
#[derive(Clone, Copy, Debug)]
pub struct Fade {
    /// Weight of the new image in 1/256ths, used by the next frame.
    pub alpha: u16,
}

/// A circle that reveals the new image, growing or shrinking.
#[derive(Clone, Copy, Debug)]
pub struct Radial {
    /// The circle's center in pixels.
    pub center: (usize, usize),
    pub step: u8,
    pub width: usize,
    pub height: usize,
    pub mode: RadialMode,
}

/// A sweep across the screen, straight or sine-modulated.
#[derive(Clone, Copy, Debug)]
pub struct Wave {
    pub step: u8,
    pub width: usize,
    pub height: usize,
}

/// The state of a transition's effect.
#[derive(Clone, Copy, Debug)]
pub enum Effect {
    /// Copies the target in one frame.
    Instant,
    /// Converges every byte toward the target by `step` a frame.
    Cleanup { step: u8 },
    Fade(Fade),
    Radial(Radial),
    Wave(Wave),
}

/// The bytes of one row of a wave frame that move toward the target: the
/// primary span, then the four bytes at each offset of `band`; all offsets
/// count from the start of the row.
pub struct WaveRow {
    pub primary: (usize, usize),
    pub band: Vec<usize>,
}

/// What one frame of an animated effect takes from the animation curve.
pub enum Frame {
    /// No animation data: for effects that need none.
    Still,
    /// The blend weight for the next frame, and whether the curve has ended.
    Fade { alpha: u16, finished: bool },
    /// The half-width of the circle on each row, and whether the curve has ended.
    Radial { spans: Vec<usize>, finished: bool },
    /// The bytes of each row that the sweep covers, and whether the curve has ended.
    Wave { rows: Vec<WaveRow>, finished: bool },
}

/// The convergence step that follows an animated effect with step `step`.
pub open spec fn cleanup_step_after(step: u8) -> u8 {
    (step / 4 + 4) as u8
}

/// The convergence step that follows a fade whose last weight was `alpha`
/// (the weight's low byte, as the cast to `u8` keeps it).
pub open spec fn cleanup_step_after_fade(alpha: u16) -> u8 {
    ((alpha % 256) / 4 + 4) as u8
}

/// The first byte of a row inside the circle, relative to the row.
pub open spec fn radial_start(cx: usize, dx: usize) -> int {
    (if cx >= dx { cx - dx } else { 0int }) * 4
}

/// The end of the bytes of a row inside the circle, relative to the row.
pub open spec fn radial_end(cx: usize, dx: usize, width: usize) -> int {
    (if width < cx + dx { width as int } else { cx + dx }) * 4
}

/// The ranges of one row that a radial frame converges.
pub open spec fn radial_line_ranges(r: Radial, line: int, dx: usize) -> Seq<(int, int)> {
    let row = line * (r.width * 4);
    let start = radial_start(r.center.0, dx);
    let end = radial_end(r.center.0, dx, r.width);
    match r.mode {
        RadialMode::Grow => seq![(row + start, row + end)],
        RadialMode::Outer => seq![(row, row + start), (row + end, row + r.width * 4)],
    }
}

/// The ranges that a radial frame converges over its first `lines` rows, row by row.
pub open spec fn radial_ranges(r: Radial, spans: Seq<usize>, lines: int) -> Seq<(int, int)>
    decreases lines,
{
    if lines <= 0 {
        seq![]
    } else {
        radial_ranges(r, spans, lines - 1) + radial_line_ranges(r, lines - 1, spans[lines - 1])
    }
}

/// Row `line` of a radial frame stays inside both buffers and its arithmetic inside `usize`.
pub open spec fn radial_line_fits(r: Radial, line: int, dx: usize, len: int) -> bool {
    let row = line * (r.width * 4);
    let start = radial_start(r.center.0, dx);
    let end = radial_end(r.center.0, dx, r.width);
    &&& r.center.0 + dx <= usize::MAX
    &&& start <= usize::MAX
    &&& match r.mode {
        RadialMode::Grow => start <= end && row + end <= len,
        RadialMode::Outer => row + start <= len && row + r.width * 4 <= len,
    }
}

/// Every row of a radial frame fits buffers of length `len`.
pub open spec fn radial_fits(r: Radial, spans: Seq<usize>, len: int) -> bool {
    &&& spans.len() == r.height
    &&& r.width * 4 <= usize::MAX
    &&& forall|line: int| 0 <= line < r.height ==> radial_line_fits(r, line, #[trigger] spans[line], len)
}

/// The ranges of one row that a wave frame converges.
pub open spec fn wave_line_ranges(w: Wave, line: int, primary: (usize, usize), band: Seq<usize>) -> Seq<(int, int)> {
    let row = line * (w.width * 4);
    seq![(row + primary.0, row + primary.1)] + band.map_values(|c: usize| (row + c, row + c + 4))
}

/// The ranges that a wave frame converges over its first `lines` rows, row by row.
pub open spec fn wave_ranges(w: Wave, rows: Seq<WaveRow>, lines: int) -> Seq<(int, int)>
    decreases lines,
{
    if lines <= 0 {
        seq![]
    } else {
        wave_ranges(w, rows, lines - 1) + wave_line_ranges(w, lines - 1, rows[lines - 1].primary, rows[lines - 1].band@)
    }
}

/// Row `line` of a wave frame stays inside both buffers.
pub open spec fn wave_line_fits(w: Wave, line: int, row_plan: WaveRow, len: int) -> bool {
    let row = line * (w.width * 4);
    &&& row_plan.primary.0 <= row_plan.primary.1
    &&& row + row_plan.primary.1 <= len
    &&& forall|k: int| 0 <= k < row_plan.band@.len() ==> row + #[trigger] row_plan.band@[k] + 4 <= len
}

/// Every row of a wave frame fits buffers of length `len`.
pub open spec fn wave_fits(w: Wave, rows: Seq<WaveRow>, len: int) -> bool {
    &&& rows.len() == w.height
    &&& w.width * 4 <= usize::MAX
    &&& forall|line: int| 0 <= line < w.height ==> wave_line_fits(w, line, #[trigger] rows[line], len)
}

/// Whether the curve of an animated frame has ended.
pub open spec fn frame_finished(f: Frame) -> bool {
    match f {
        Frame::Still => false,
        Frame::Fade { finished, .. } => finished,
        Frame::Radial { finished, .. } => finished,
        Frame::Wave { finished, .. } => finished,
    }
}

impl Effect {
    /// A fade's weight never exceeds a whole 256/256.
    pub open spec fn wf(self) -> bool {
        match self {
            Effect::Fade(f) => f.alpha <= 256,
            _ => true,
        }
    }

    /// `frame` is the kind of data this effect needs, and it fits a canvas
    /// of `clen` bytes and a target of `tlen` bytes.
    pub open spec fn fits(self, frame: Frame, clen: nat, tlen: nat) -> bool {
        let len: int = if clen < tlen { clen as int } else { tlen as int };
        match self {
            Effect::Instant => clen == tlen,
            Effect::Cleanup { .. } => true,
            Effect::Fade(_) => frame matches Frame::Fade { alpha, .. } && alpha <= 256,
            Effect::Radial(r) => frame matches Frame::Radial { spans, .. } && radial_fits(r, spans@, len),
            Effect::Wave(w) => frame matches Frame::Wave { rows, .. } && wave_fits(w, rows@, len),
        }
    }

    /// The canvas after one frame of this effect.
    pub open spec fn canvas_after(self, frame: Frame, s: Seq<u8>, t: Seq<u8>) -> Seq<u8> {
        match self {
            Effect::Instant => t,
            Effect::Cleanup { step } => converged(s, t, 0, whole_pixel_bytes(s.len(), t.len()), step),
            Effect::Fade(f) => blended(s, t, f.alpha),
            Effect::Radial(r) => match frame {
                Frame::Radial { spans, .. } => converged_ranges(s, t, radial_ranges(r, spans@, r.height as int), r.step),
                _ => s,
            },
            Effect::Wave(w) => match frame {
                Frame::Wave { rows, .. } => converged_ranges(s, t, wave_ranges(w, rows@, w.height as int), w.step),
                _ => s,
            },
        }
    }

    /// The effect after one frame: an animated effect whose curve has ended
    /// hands over to a convergence that settles the remaining bytes.
    pub open spec fn next(self, frame: Frame) -> Effect {
        match self {
            Effect::Fade(_) => match frame {
                Frame::Fade { alpha, finished } => if finished {
                    Effect::Cleanup { step: cleanup_step_after_fade(alpha) }
                } else {
                    Effect::Fade(Fade { alpha })
                },
                _ => self,
            },
            Effect::Radial(r) => if frame_finished(frame) {
                Effect::Cleanup { step: cleanup_step_after(r.step) }
            } else {
                self
            },
            Effect::Wave(w) => if frame_finished(frame) {
                Effect::Cleanup { step: cleanup_step_after(w.step) }
            } else {
                self
            },
            _ => self,
        }
    }

    /// Whether the frame completed the transition: the instant copy always
    /// does, a convergence does once every whole pixel equals the target,
    /// an animated effect never does.
    pub open spec fn completes(self, s: Seq<u8>, t: Seq<u8>) -> bool {
        match self {
            Effect::Instant => true,
            Effect::Cleanup { step } => {
                let n = whole_pixel_bytes(s.len(), t.len());
                converged(s, t, 0, n, step).subrange(0, n) == t.subrange(0, n)
            },
            _ => false,
        }
    }

    /// The effect that a transition of type `kind` starts with, for an
    /// output of `dimensions` whose radial center is `center`.
    pub open spec fn initial(kind: TransitionType, step: u8, center: (usize, usize), dimensions: (u32, u32)) -> Effect {
        match kind {
            TransitionType::Instant => Effect::Instant,
            TransitionType::Simple => Effect::Cleanup { step: 2 },
            TransitionType::Fade => Effect::Fade(Fade { alpha: 0 }),
            TransitionType::Grow => Effect::Radial(Radial {
                center,
                step,
                width: dimensions.0 as usize,
                height: dimensions.1 as usize,
                mode: RadialMode::Grow,
            }),
            TransitionType::Outer => Effect::Radial(Radial {
                center,
                step,
                width: dimensions.0 as usize,
                height: dimensions.1 as usize,
                mode: RadialMode::Outer,
            }),
            TransitionType::Wipe | TransitionType::Wave => Effect::Wave(Wave {
                step,
                width: dimensions.0 as usize,
                height: dimensions.1 as usize,
            }),
        }
    }

    /// The effect a transition of type `kind` starts with.
    pub fn new(kind: TransitionType, step: u8, center: (usize, usize), dimensions: (u32, u32)) -> (e: Effect)
        ensures
            e == Effect::initial(kind, step, center, dimensions),
            e.wf(),
    {
        match kind {
            TransitionType::Instant => Effect::Instant,
            TransitionType::Simple => Effect::Cleanup { step: 2 },
            TransitionType::Fade => Effect::Fade(Fade { alpha: 0 }),
            TransitionType::Grow => Effect::Radial(Radial {
                center,
                step,
                width: dimensions.0 as usize,
                height: dimensions.1 as usize,
                mode: RadialMode::Grow,
            }),
            TransitionType::Outer => Effect::Radial(Radial {
                center,
                step,
                width: dimensions.0 as usize,
                height: dimensions.1 as usize,
                mode: RadialMode::Outer,
            }),
            TransitionType::Wipe | TransitionType::Wave => Effect::Wave(Wave {
                step,
                width: dimensions.0 as usize,
                height: dimensions.1 as usize,
            }),
        }
    }

    /// Runs one frame on `canvas`; returns whether the transition is complete.
    pub fn execute(&mut self, canvas: &mut [u8], target: &[u8], frame: &Frame) -> (done: bool)
        requires
            old(self).wf(),
            old(self).fits(*frame, old(canvas)@.len(), target@.len()),
        ensures
            final(self).wf(),
            final(canvas)@ == old(self).canvas_after(*frame, old(canvas)@, target@),
            *final(self) == old(self).next(*frame),
            done == old(self).completes(old(canvas)@, target@),
    {
        match *self {
            Effect::Instant => {
                copy_into(canvas, target);
                true
            },
            Effect::Cleanup { step } => cleanup(canvas, target, step),
            Effect::Fade(fade) => {
                let mut fade = fade;
                match frame {
                    Frame::Fade { alpha, finished } => {
                        if !fade.run(canvas, target, *alpha, *finished) {
                            *self = Effect::Fade(fade);
                            return false;
                        }
                        let a = fade.alpha;
                        assert((a as u8) as int == a % 256) by (bit_vector);
                        *self = Effect::Cleanup { step: (fade.alpha as u8) / 4 + 4 };
                        false
                    },
                    _ => false,
                }
            },
            Effect::Radial(radial) => {
                match frame {
                    Frame::Radial { spans, finished } => {
                        if !radial.run(canvas, target, spans, *finished) {
                            return false;
                        }
                        *self = Effect::Cleanup { step: radial.step / 4 + 4 };
                        false
                    },
                    _ => false,
                }
            },
            Effect::Wave(wave) => {
                match frame {
                    Frame::Wave { rows, finished } => {
                        if !wave.run(canvas, target, rows, *finished) {
                            return false;
                        }
                        *self = Effect::Cleanup { step: wave.step / 4 + 4 };
                        false
                    },
                    _ => false,
                }
            },
        }
    }
}

/// The canvas after `k` frames of a convergence with `step`.
pub open spec fn cleanup_frames(s: Seq<u8>, t: Seq<u8>, step: u8, k: nat) -> Seq<u8>
    decreases k,
{
    if k == 0 {
        s
    } else {
        Effect::Cleanup { step }.canvas_after(Frame::Still, cleanup_frames(s, t, step, (k - 1) as nat), t)
    }
}

/// Each whole-pixel byte after `k` convergence frames is the byte converged
/// `k` times; the other bytes never change.
pub proof fn lemma_cleanup_frames_bytes(s: Seq<u8>, t: Seq<u8>, step: u8, k: nat)
    ensures
        cleanup_frames(s, t, step, k).len() == s.len(),
        forall|j: int|
            0 <= j < s.len() ==> #[trigger] cleanup_frames(s, t, step, k)[j] == (if j < whole_pixel_bytes(s.len(), t.len()) {
                converge_byte_frames(s[j], t[j], step, k)
            } else {
                s[j]
            }),
    decreases k,
{
    if k > 0 {
        lemma_cleanup_frames_bytes(s, t, step, (k - 1) as nat);
    }
}

/// The simple transition settles: with a step of at least one, the frame
/// after `k - 1` frames, where `k * step >= 255`, completes it.
pub proof fn lemma_cleanup_completes(s: Seq<u8>, t: Seq<u8>, step: u8, k: nat)
    requires
        step >= 1,
        k >= 1,
        k * step >= 255,
    ensures
        (Effect::Cleanup { step }).completes(cleanup_frames(s, t, step, (k - 1) as nat), t),
{
    let prev = cleanup_frames(s, t, step, (k - 1) as nat);
    let n = whole_pixel_bytes(s.len(), t.len());
    lemma_cleanup_frames_bytes(s, t, step, k);
    lemma_cleanup_frames_bytes(s, t, step, (k - 1) as nat);
    assert(cleanup_frames(s, t, step, k) == Effect::Cleanup { step }.canvas_after(Frame::Still, prev, t));
    assert forall|j: int| 0 <= j < n implies #[trigger] cleanup_frames(s, t, step, k)[j] == t[j] by {
        lemma_converge_byte_frames(s[j], t[j], step, k);
        assert(byte_distance(s[j], t[j]) <= 255);
    }
    assert(converged(prev, t, 0, n, step).subrange(0, n) =~= t.subrange(0, n));
}

/// A convergence completes the transition on exactly the frames by which
/// `step` a frame has covered the distance of the farthest whole-pixel byte
/// from its target: frame `k` completes it if and only if `k * step` is at
/// least that distance.
pub proof fn lemma_cleanup_completes_exactly(s: Seq<u8>, t: Seq<u8>, step: u8, k: nat)
    requires
        k >= 1,
    ensures
        (Effect::Cleanup { step }).completes(cleanup_frames(s, t, step, (k - 1) as nat), t) <==> k * step >= max_distance(
            s,
            t,
            whole_pixel_bytes(s.len(), t.len()),
        ),
{
    let prev = cleanup_frames(s, t, step, (k - 1) as nat);
    let n = whole_pixel_bytes(s.len(), t.len());
    let d = max_distance(s, t, n);
    let w = lemma_max_distance(s, t, n);
    lemma_cleanup_frames_bytes(s, t, step, k);
    lemma_cleanup_frames_bytes(s, t, step, (k - 1) as nat);
    let after = cleanup_frames(s, t, step, k);
    assert(after == Effect::Cleanup { step }.canvas_after(Frame::Still, prev, t));
    assert(converged(prev, t, 0, n, step) == after);
    assert(0 <= n <= s.len() && n <= t.len()) by {
        let m: int = if s.len() < t.len() { s.len() as int } else { t.len() as int };
        vstd::arithmetic::div_mod::lemma_fundamental_div_mod(m, 4);
    }
    if k * step >= d {
        assert forall|j: int| 0 <= j < n implies #[trigger] after[j] == t[j] by {
            lemma_converge_byte_frames(s[j], t[j], step, k);
            assert(byte_distance(s[j], t[j]) <= d);
        }
        assert(after.subrange(0, n) =~= t.subrange(0, n));
    }
    if (Effect::Cleanup { step }).completes(prev, t) && d > 0 {
        assert(after.subrange(0, n)[w] == t.subrange(0, n)[w]);
        lemma_converge_byte_frames(s[w], t[w], step, k);
    }
}

/// The frame that completes a convergence of step at least one: the first
/// frame by which `step` a frame covers distance `d`, and frame 1 where
/// nothing is left to do.
pub open spec fn settling_frame(d: int, step: u8) -> int {
    if d <= 0 {
        1
    } else {
        (d + step - 1) / (step as int)
    }
}

/// A convergence of step at least one completes the transition first at
/// frame `max(1, ceil(d / step))`, where `d` is the distance of the farthest
/// whole-pixel byte from its target: every earlier frame reports it
/// unfinished, and that frame leaves each whole-pixel byte on its target, so
/// a canvas of whole pixels as long as the target then equals it.
pub proof fn lemma_cleanup_settling_frame(s: Seq<u8>, t: Seq<u8>, step: u8)
    requires
        step >= 1,
    ensures
        ({
            let d = max_distance(s, t, whole_pixel_bytes(s.len(), t.len()));
            let k = settling_frame(d, step);
            &&& k >= 1
            &&& (Effect::Cleanup { step }).completes(cleanup_frames(s, t, step, (k - 1) as nat), t)
            &&& forall|j: int|
                1 <= j < k ==> !(Effect::Cleanup { step }).completes(#[trigger] cleanup_frames(s, t, step, (j - 1) as nat), t)
            &&& forall|i: int|
                0 <= i < whole_pixel_bytes(s.len(), t.len()) ==> #[trigger] cleanup_frames(s, t, step, k as nat)[i] == t[i]
            &&& s.len() == t.len() && s.len() % 4 == 0 ==> cleanup_frames(s, t, step, k as nat) == t
        }),
{
    let n = whole_pixel_bytes(s.len(), t.len());
    let d = max_distance(s, t, n);
    let k = settling_frame(d, step);
    lemma_max_distance(s, t, n);
    if d > 0 {
        let st = step as int;
        vstd::arithmetic::div_mod::lemma_fundamental_div_mod(d + st - 1, st);
        let q = (d + st - 1) / st;
        let r = (d + st - 1) % st;
        assert(q * st >= d && (q - 1) * st < d && q >= 1) by (nonlinear_arith)
            requires
                d + st - 1 == st * q + r,
                0 <= r < st,
                d > 0,
                st >= 1,
        ;
        assert forall|j: int| 1 <= j < k implies !(Effect::Cleanup { step }).completes(
            #[trigger] cleanup_frames(s, t, step, (j - 1) as nat),
            t,
        ) by {
            lemma_cleanup_completes_exactly(s, t, step, j as nat);
            assert(j * st <= (q - 1) * st) by (nonlinear_arith)
                requires
                    j <= q - 1,
                    st >= 1,
            ;
        }
    }
    lemma_cleanup_completes_exactly(s, t, step, k as nat);
    lemma_cleanup_frames_bytes(s, t, step, k as nat);
    assert forall|i: int| 0 <= i < n implies #[trigger] cleanup_frames(s, t, step, k as nat)[i] == t[i] by {
        lemma_converge_byte_frames(s[i], t[i], step, k as nat);
        assert(byte_distance(s[i], t[i]) <= d);
    }
    if s.len() == t.len() && s.len() % 4 == 0 {
        assert(n == s.len()) by {
            vstd::arithmetic::div_mod::lemma_fundamental_div_mod(s.len() as int, 4);
        }
        assert(cleanup_frames(s, t, step, k as nat) =~= t);
    }
}

/// The step of a stepping effect: the most that one frame moves a byte.
pub open spec fn effect_step(e: Effect) -> u8 {
    match e {
        Effect::Cleanup { step } => step,
        Effect::Radial(r) => r.step,
        Effect::Wave(w) => w.step,
        _ => 255,
    }
}

/// The ranges of a radial or wave frame do not overlap.
pub open spec fn frame_ranges_disjoint(e: Effect, frame: Frame) -> bool {
    match (e, frame) {
        (Effect::Radial(r), Frame::Radial { spans, .. }) => ranges_disjoint(radial_ranges(r, spans@, r.height as int)),
        (Effect::Wave(w), Frame::Wave { rows, .. }) => ranges_disjoint(wave_ranges(w, rows@, w.height as int)),
        _ => true,
    }
}

/// The step is the most that a frame moves a byte: one frame of a
/// convergence, or of a radial or wave effect whose ranges do not overlap,
/// changes no byte by more than the effect's step.
pub proof fn lemma_frame_moves_at_most_step(e: Effect, frame: Frame, s: Seq<u8>, t: Seq<u8>)
    requires
        e is Cleanup || e is Radial || e is Wave,
        frame_ranges_disjoint(e, frame),
    ensures
        e.canvas_after(frame, s, t).len() == s.len(),
        forall|j: int| 0 <= j < s.len() ==> byte_distance(#[trigger] e.canvas_after(frame, s, t)[j], s[j]) <= effect_step(e),
{
    match e {
        Effect::Cleanup { step } => {
            assert forall|j: int| 0 <= j < s.len() implies byte_distance(#[trigger] e.canvas_after(frame, s, t)[j], s[j])
                <= effect_step(e) by {
                lemma_converge_byte(s[j], t[j], step);
            }
        },
        Effect::Radial(r) => {
            if let Frame::Radial { spans, .. } = frame {
                let ranges = radial_ranges(r, spans@, r.height as int);
                lemma_converged_ranges_disjoint(s, t, ranges, r.step);
                assert forall|j: int| 0 <= j < s.len() implies byte_distance(#[trigger] e.canvas_after(frame, s, t)[j], s[j])
                    <= effect_step(e) by {
                    lemma_converge_byte(s[j], t[j], r.step);
                }
            }
        },
        Effect::Wave(w) => {
            if let Frame::Wave { rows, .. } = frame {
                let ranges = wave_ranges(w, rows@, w.height as int);
                lemma_converged_ranges_disjoint(s, t, ranges, w.step);
                assert forall|j: int| 0 <= j < s.len() implies byte_distance(#[trigger] e.canvas_after(frame, s, t)[j], s[j])
                    <= effect_step(e) by {
                    lemma_converge_byte(s[j], t[j], w.step);
                }
            }
        },
        _ => {},
    }
}

/// Whether a radial frame moves column `x` of a row on which the circle's
/// half-width is `dx`: a grow frame moves the columns inside the circle,
/// `cx - dx <= x < cx + dx`, an outer frame all the others.
pub open spec fn radial_moves_column(r: Radial, dx: usize, x: int) -> bool {
    let inside = r.center.0 - dx <= x && x < r.center.0 + dx;
    match r.mode {
        RadialMode::Grow => inside,
        RadialMode::Outer => !inside,
    }
}

/// Byte `c` of pixel `(x, line)` lies `line` rows of `width * 4` bytes and
/// `x` pixels into the buffer; a pixel of an earlier row lies before row
/// `l`, and row `l` ends where row `l + 1` begins.
proof fn lemma_row_offsets(width: int, x: int, line: int, c: int, l: int)
    requires
        0 <= x < width,
        0 <= c < 4,
        0 <= line,
        0 <= l,
    ensures
        pixel_index(width, x, line, c) == line * (width * 4) + x * 4 + c,
        line < l ==> pixel_index(width, x, line, c) < l * (width * 4),
        l * (width * 4) + width * 4 == (l + 1) * (width * 4),
{
    assert(pixel_index(width, x, line, c) == line * (width * 4) + x * 4 + c) by (nonlinear_arith);
    assert(line < l ==> line * (width * 4) + width * 4 <= l * (width * 4)) by (nonlinear_arith)
        requires
            0 <= line,
            0 <= width,
    ;
    assert(l * (width * 4) + width * 4 == (l + 1) * (width * 4)) by (nonlinear_arith);
}

/// The first `lines` rows of a radial frame move exactly the columns that
/// `radial_moves_column` names, one convergence frame each, and no byte
/// past them.
proof fn lemma_radial_ranges_columns(r: Radial, spans: Seq<usize>, lines: int, s: Seq<u8>, t: Seq<u8>)
    requires
        0 <= lines <= spans.len(),
        r.mode == RadialMode::Outer ==> forall|line: int| 0 <= line < spans.len() ==> r.center.0 <= r.width + #[trigger] spans[line],
    ensures
        converged_ranges(s, t, radial_ranges(r, spans, lines), r.step).len() == s.len(),
        forall|line: int, x: int, c: int|
            #![trigger converged_ranges(s, t, radial_ranges(r, spans, lines), r.step)[pixel_index(r.width as int, x, line, c)]]
            0 <= line < lines && 0 <= x < r.width && 0 <= c < 4 && pixel_index(r.width as int, x, line, c) < s.len()
                ==> converged_ranges(s, t, radial_ranges(r, spans, lines), r.step)[pixel_index(r.width as int, x, line, c)]
                == (if radial_moves_column(r, spans[line], x) {
                converge_byte(s[pixel_index(r.width as int, x, line, c)], t[pixel_index(r.width as int, x, line, c)], r.step)
            } else {
                s[pixel_index(r.width as int, x, line, c)]
            }),
        forall|j: int|
            lines * (r.width * 4) <= j < s.len() ==> #[trigger] converged_ranges(s, t, radial_ranges(r, spans, lines), r.step)[j]
                == s[j],
    decreases lines,
{
    let w = r.width as int;
    let cur = converged_ranges(s, t, radial_ranges(r, spans, lines), r.step);
    lemma_converged_ranges_closer(s, t, radial_ranges(r, spans, lines), r.step);
    if lines > 0 {
        let l = lines - 1;
        lemma_radial_ranges_columns(r, spans, l, s, t);
        let prev_ranges = radial_ranges(r, spans, l);
        let line_ranges = radial_line_ranges(r, l, spans[l]);
        lemma_converged_ranges_concat(s, t, prev_ranges, line_ranges, r.step);
        let prev = converged_ranges(s, t, prev_ranges, r.step);
        lemma_converged_ranges_closer(s, t, prev_ranges, r.step);
        let row = l * (w * 4);
        let dx = spans[l];
        let cx = r.center.0;
        let start = radial_start(cx, dx);
        let end = radial_end(cx, dx, r.width);
        assert(row + w * 4 == lines * (w * 4)) by (nonlinear_arith)
            requires
                l == lines - 1,
                row == l * (w * 4),
        ;
        assert(0 <= row) by (nonlinear_arith)
            requires
                0 <= l,
                0 <= w,
                row == l * (w * 4),
        ;
        match r.mode {
            RadialMode::Grow => {
                lemma_converged_ranges_one(prev, t, (row + start, row + end), r.step);
                assert(cur == converged(prev, t, row + start, row + end, r.step));
            },
            RadialMode::Outer => {
                lemma_converged_ranges_two(prev, t, (row, row + start), (row + end, row + w * 4), r.step);
                assert(cur == converged(converged(prev, t, row, row + start, r.step), t, row + end, row + w * 4, r.step));
                assert(cx <= w + dx);
                assert(start <= end);
            },
        }
        assert forall|line: int, x: int, c: int|
            0 <= line < lines && 0 <= x < r.width && 0 <= c < 4 && pixel_index(r.width as int, x, line, c) < s.len() implies
                #[trigger] cur[pixel_index(r.width as int, x, line, c)] == (if radial_moves_column(r, spans[line], x) {
                converge_byte(s[pixel_index(r.width as int, x, line, c)], t[pixel_index(r.width as int, x, line, c)], r.step)
            } else {
                s[pixel_index(r.width as int, x, line, c)]
            }) by {
            let i = pixel_index(w, x, line, c);
            lemma_row_offsets(w, x, line, c, l);
            if line < l {
                assert(cur[i] == prev[i]);
            } else {
                assert(line == l);
                assert(prev[i] == s[i]);
            }
        }
        assert forall|j: int| lines * (r.width * 4) <= j < s.len() implies #[trigger] cur[j] == s[j] by {
            assert(row <= lines * (w * 4));
            assert(prev[j] == s[j]);
        }
    }
}

/// A radial frame converges, on each row, exactly the columns that its
/// circle selects: a grow frame every column `x` with
/// `cx - dx <= x < cx + dx` (the circle clipped to the screen), an outer
/// frame every other column, where `dx` is the circle's half-width on that
/// row; each such byte moves one convergence frame toward the target, and
/// every other byte of the canvas is kept. For an outer frame the circle's
/// left edge lies on the screen (`cx - dx <= width`) on every row.
pub proof fn lemma_radial_frame_columns(r: Radial, frame: Frame, s: Seq<u8>, t: Seq<u8>)
    requires
        frame matches Frame::Radial { spans, .. } && spans@.len() == r.height && (r.mode == RadialMode::Outer ==> forall|line: int|
            0 <= line < r.height ==> r.center.0 <= r.width + #[trigger] spans@[line]),
    ensures
        Effect::Radial(r).canvas_after(frame, s, t).len() == s.len(),
        frame matches Frame::Radial { spans, .. } ==> forall|line: int, x: int, c: int|
            #![trigger Effect::Radial(r).canvas_after(frame, s, t)[pixel_index(r.width as int, x, line, c)]]
            0 <= line < r.height && 0 <= x < r.width && 0 <= c < 4 && pixel_index(r.width as int, x, line, c) < s.len()
                ==> Effect::Radial(r).canvas_after(frame, s, t)[pixel_index(r.width as int, x, line, c)] == (if radial_moves_column(
                r,
                spans@[line],
                x,
            ) {
                converge_byte(s[pixel_index(r.width as int, x, line, c)], t[pixel_index(r.width as int, x, line, c)], r.step)
            } else {
                s[pixel_index(r.width as int, x, line, c)]
            }),
        forall|j: int|
            r.height * (r.width * 4) <= j < s.len() ==> #[trigger] Effect::Radial(r).canvas_after(frame, s, t)[j] == s[j],
{
    if let Frame::Radial { spans, .. } = frame {
        lemma_radial_ranges_columns(r, spans@, r.height as int, s, t);
    }
}

/// A convergence frame moves every byte of the whole pixels that the canvas
/// and the target both hold, `(min(len) / 4) * 4` bytes, one step toward its
/// target byte, and keeps the canvas's other bytes; it reports completion
/// exactly when those bytes then all equal the target's.
pub proof fn lemma_cleanup_frame_bytes(step: u8, s: Seq<u8>, t: Seq<u8>)
    ensures
        ({
            let m: int = if s.len() < t.len() { s.len() as int } else { t.len() as int };
            let n: int = (m / 4) * 4;
            let after = Effect::Cleanup { step }.canvas_after(Frame::Still, s, t);
            &&& after.len() == s.len()
            &&& forall|j: int|
                0 <= j < s.len() ==> #[trigger] after[j] == (if j < n { converge_byte(s[j], t[j], step) } else { s[j] })
            &&& (Effect::Cleanup { step }).completes(s, t) <==> forall|j: int| 0 <= j < n ==> #[trigger] after[j] == t[j]
        }),
{
    let m: int = if s.len() < t.len() { s.len() as int } else { t.len() as int };
    let n: int = (m / 4) * 4;
    let after = Effect::Cleanup { step }.canvas_after(Frame::Still, s, t);
    assert(whole_pixel_bytes(s.len(), t.len()) == n);
    vstd::arithmetic::div_mod::lemma_fundamental_div_mod(m, 4);
    assert(0 <= n <= m);
    if forall|j: int| 0 <= j < n ==> #[trigger] after[j] == t[j] {
        assert(after.subrange(0, n) =~= t.subrange(0, n));
    }
    if (Effect::Cleanup { step }).completes(s, t) {
        assert forall|j: int| 0 <= j < n implies #[trigger] after[j] == t[j] by {
            assert(after.subrange(0, n)[j] == t.subrange(0, n)[j]);
        }
    }
}

/// Whether byte `j` of the canvas lies in what row `line` of a wave frame
/// sweeps: its primary span, or one of the four-byte pixels of its band, all
/// counted from the start of the row, `line * width * 4`.
pub open spec fn wave_row_covers(w: Wave, line: int, row_plan: WaveRow, j: int) -> bool {
    let row = line * (w.width * 4);
    ||| row + row_plan.primary.0 <= j < row + row_plan.primary.1
    ||| exists|k: int| 0 <= k < row_plan.band@.len() && row + #[trigger] row_plan.band@[k] <= j < row + row_plan.band@[k] + 4
}

/// An index lies in one of the ranges `a + b` exactly when it lies in one of `a` or one of `b`.
proof fn lemma_covered_concat(a: Seq<(int, int)>, b: Seq<(int, int)>, j: int)
    ensures
        covered(a + b, j) <==> covered(a, j) || covered(b, j),
{
    if covered(a + b, j) {
        let k = choose|k: int| 0 <= k < (a + b).len() && #[trigger] in_range((a + b)[k], j);
        if k < a.len() {
            assert(in_range(a[k], j));
        } else {
            assert(in_range(b[k - a.len()], j));
        }
    }
    if covered(a, j) {
        let k = choose|k: int| 0 <= k < a.len() && #[trigger] in_range(a[k], j);
        assert(in_range((a + b)[k], j));
    }
    if covered(b, j) {
        let k = choose|k: int| 0 <= k < b.len() && #[trigger] in_range(b[k], j);
        assert(in_range((a + b)[k + a.len()], j));
    }
}

/// The ranges of one wave row cover exactly what the row sweeps.
proof fn lemma_wave_line_covers(w: Wave, line: int, row_plan: WaveRow, j: int)
    ensures
        covered(wave_line_ranges(w, line, row_plan.primary, row_plan.band@), j) <==> wave_row_covers(w, line, row_plan, j),
{
    let row = line * (w.width * 4);
    let first = seq![(row + row_plan.primary.0, row + row_plan.primary.1)];
    let band = row_plan.band@.map_values(|c: usize| (row + c, row + c + 4));
    lemma_covered_concat(first, band, j);
    if covered(first, j) {
        let k = choose|k: int| 0 <= k < first.len() && #[trigger] in_range(first[k], j);
        assert(k == 0);
    }
    if row + row_plan.primary.0 <= j < row + row_plan.primary.1 {
        assert(in_range(first[0], j));
    }
    if covered(band, j) {
        let k = choose|k: int| 0 <= k < band.len() && #[trigger] in_range(band[k], j);
        assert(band[k] == (row + row_plan.band@[k], row + row_plan.band@[k] + 4));
    }
    if exists|k: int| 0 <= k < row_plan.band@.len() && row + #[trigger] row_plan.band@[k] <= j < row + row_plan.band@[k] + 4 {
        let k = choose|k: int| 0 <= k < row_plan.band@.len() && row + #[trigger] row_plan.band@[k] <= j < row + row_plan.band@[k] + 4;
        assert(band[k] == (row + row_plan.band@[k], row + row_plan.band@[k] + 4));
        assert(in_range(band[k], j));
    }
}

/// The first `lines` rows of a wave frame cover exactly what those rows sweep.
proof fn lemma_wave_ranges_cover(w: Wave, rows: Seq<WaveRow>, lines: int, j: int)
    requires
        0 <= lines <= rows.len(),
    ensures
        covered(wave_ranges(w, rows, lines), j) <==> exists|line: int| 0 <= line < lines && #[trigger] wave_row_covers(w, line, rows[line], j),
    decreases lines,
{
    if lines > 0 {
        let l = lines - 1;
        lemma_wave_ranges_cover(w, rows, l, j);
        lemma_covered_concat(wave_ranges(w, rows, l), wave_line_ranges(w, l, rows[l].primary, rows[l].band@), j);
        lemma_wave_line_covers(w, l, rows[l], j);
        if exists|line: int| 0 <= line < lines && #[trigger] wave_row_covers(w, line, rows[line], j) {
            let line = choose|line: int| 0 <= line < lines && #[trigger] wave_row_covers(w, line, rows[line], j);
            if line < l {
                assert(exists|line: int| 0 <= line < l && #[trigger] wave_row_covers(w, line, rows[line], j));
            }
        }
    } else {
        assert(wave_ranges(w, rows, lines).len() == 0);
    }
}

/// A wave frame whose rows do not overlap moves exactly the bytes that its
/// rows sweep, each one convergence frame toward the target, and keeps
/// every other byte of the canvas.
pub proof fn lemma_wave_frame_bytes(w: Wave, frame: Frame, s: Seq<u8>, t: Seq<u8>)
    requires
        frame matches Frame::Wave { rows, .. } && rows@.len() == w.height && ranges_disjoint(
            wave_ranges(w, rows@, w.height as int),
        ),
    ensures
        Effect::Wave(w).canvas_after(frame, s, t).len() == s.len(),
        frame matches Frame::Wave { rows, .. } ==> forall|j: int|
            0 <= j < s.len() ==> #[trigger] Effect::Wave(w).canvas_after(frame, s, t)[j] == (if exists|line: int|
                0 <= line < w.height && #[trigger] wave_row_covers(w, line, rows@[line], j) {
                converge_byte(s[j], t[j], w.step)
            } else {
                s[j]
            }),
{
    if let Frame::Wave { rows, .. } = frame {
        let ranges = wave_ranges(w, rows@, w.height as int);
        lemma_converged_ranges_disjoint(s, t, ranges, w.step);
        assert forall|j: int| 0 <= j < s.len() implies #[trigger] Effect::Wave(w).canvas_after(frame, s, t)[j] == (if exists|
            line: int,
        | 0 <= line < w.height && #[trigger] wave_row_covers(w, line, rows@[line], j) {
            converge_byte(s[j], t[j], w.step)
        } else {
            s[j]
        }) by {
            lemma_wave_ranges_cover(w, rows@, w.height as int, j);
        }
    }
}

/// A fade frame blends every byte that the canvas and the target share:
/// the old byte weighs `256 - alpha` and the new one `alpha`, in 1/256ths,
/// rounded down; the canvas's other bytes are kept.
pub proof fn lemma_fade_frame_blends(f: Fade, frame: Frame, s: Seq<u8>, t: Seq<u8>)
    requires
        f.alpha <= 256,
    ensures
        Effect::Fade(f).canvas_after(frame, s, t).len() == s.len(),
        forall|j: int|
            0 <= j < s.len() && j < t.len() ==> #[trigger] Effect::Fade(f).canvas_after(frame, s, t)[j] as int == (s[j] as int
                * (256 - f.alpha as int) + t[j] as int * f.alpha as int) / 256,
        forall|j: int| t.len() <= j < s.len() ==> #[trigger] Effect::Fade(f).canvas_after(frame, s, t)[j] == s[j],
{
    assert forall|j: int| 0 <= j < s.len() && j < t.len() implies #[trigger] Effect::Fade(f).canvas_after(frame, s, t)[j] as int
        == (s[j] as int * (256 - f.alpha as int) + t[j] as int * f.alpha as int) / 256 by {
        lemma_blend_weights(s[j], t[j], f.alpha);
    }
}

/// `frame` carries the data of `e`'s kind of animation.
pub open spec fn frame_of_kind(e: Effect, frame: Frame) -> bool {
    match (e, frame) {
        (Effect::Fade(_), Frame::Fade { .. }) => true,
        (Effect::Radial(_), Frame::Radial { .. }) => true,
        (Effect::Wave(_), Frame::Wave { .. }) => true,
        _ => false,
    }
}

/// An animated effect never completes a transition by itself: while its
/// curve runs it stays the same kind of effect (a fade takes the frame's
/// weight), and once the curve ends it hands over to a convergence whose
/// step is a quarter of its own plus four (for a fade, of the last weight's
/// low byte).
pub proof fn lemma_animated_effect_hands_over(e: Effect, frame: Frame, s: Seq<u8>, t: Seq<u8>)
    requires
        frame_of_kind(e, frame),
    ensures
        !e.completes(s, t),
        !frame_finished(frame) ==> match (e, frame) {
            (Effect::Fade(_), Frame::Fade { alpha, .. }) => e.next(frame) == Effect::Fade(Fade { alpha }),
            _ => e.next(frame) == e,
        },
        frame_finished(frame) ==> e.next(frame) == match (e, frame) {
            (Effect::Fade(_), Frame::Fade { alpha, .. }) => Effect::Cleanup { step: cleanup_step_after_fade(alpha) },
            (Effect::Radial(r), _) => Effect::Cleanup { step: cleanup_step_after(r.step) },
            (Effect::Wave(w), _) => Effect::Cleanup { step: cleanup_step_after(w.step) },
            _ => e,
        },
{
}

/// When an animated effect's curve ends, it hands over to a convergence of
/// step at least 4, which completes the transition by its 64th frame.
pub proof fn lemma_finished_effect_settles(e: Effect, frame: Frame, s: Seq<u8>, t: Seq<u8>)
    requires
        e.wf(),
        e.fits(frame, s.len(), t.len()),
        e is Fade || e is Radial || e is Wave,
        frame_finished(frame),
    ensures
        e.next(frame) matches Effect::Cleanup { step } && step >= 4 && e.next(frame).completes(
            cleanup_frames(s, t, step, 63),
            t,
        ),
{
    if let Effect::Cleanup { step } = e.next(frame) {
        assert(step >= 4);
        assert(64 * step >= 255);
        lemma_cleanup_completes(s, t, step, 64);
    }
}

/// No frame of any effect moves a byte away from the target: each byte that
/// the canvas and the target share ends no farther from its target byte.
pub proof fn lemma_frame_moves_toward_target(e: Effect, frame: Frame, s: Seq<u8>, t: Seq<u8>)
    requires
        e.wf(),
        e.fits(frame, s.len(), t.len()),
    ensures
        e.canvas_after(frame, s, t).len() == s.len(),
        forall|j: int|
            0 <= j < s.len() && j < t.len() ==> byte_distance(#[trigger] e.canvas_after(frame, s, t)[j], t[j])
                <= byte_distance(s[j], t[j]),
{
    match e {
        Effect::Instant => {},
        Effect::Cleanup { step } => {
            let n = whole_pixel_bytes(s.len(), t.len());
            assert forall|j: int| 0 <= j < s.len() && j < t.len() implies byte_distance(
                #[trigger] e.canvas_after(frame, s, t)[j],
                t[j],
            ) <= byte_distance(s[j], t[j]) by {
                lemma_converge_byte(s[j], t[j], step);
            }
        },
        Effect::Fade(f) => {
            assert forall|j: int| 0 <= j < s.len() && j < t.len() implies byte_distance(
                #[trigger] e.canvas_after(frame, s, t)[j],
                t[j],
            ) <= byte_distance(s[j], t[j]) by {
                lemma_blend_byte(s[j], t[j], f.alpha);
            }
        },
        Effect::Radial(r) => {
            if let Frame::Radial { spans, .. } = frame {
                lemma_converged_ranges_closer(s, t, radial_ranges(r, spans@, r.height as int), r.step);
            }
        },
        Effect::Wave(w) => {
            if let Frame::Wave { rows, .. } = frame {
                lemma_converged_ranges_closer(s, t, wave_ranges(w, rows@, w.height as int), w.step);
            }
        },
    }
}

impl Fade {
    /// Blends the canvas with the current weight, then takes `next_alpha`
    /// for the next frame; returns whether the curve has ended.
    pub fn run(&mut self, canvas: &mut [u8], target: &[u8], next_alpha: u16, finished: bool) -> (r: bool)
        requires
            old(self).alpha <= 256,
            next_alpha <= 256,
        ensures
            final(canvas)@ == blended(old(canvas)@, target@, old(self).alpha),
            final(self).alpha == next_alpha,
            r == finished,
    {
        blend_into(canvas, target, self.alpha);
        self.alpha = next_alpha;
        finished
    }
}

impl Radial {
    /// Converges the bytes inside (`Grow`) or outside (`Outer`) the circle,
    /// whose half-width on row `line` is `spans[line]`; returns whether the
    /// curve has ended.
    pub fn run(&self, canvas: &mut [u8], target: &[u8], spans: &Vec<usize>, finished: bool) -> (r: bool)
        requires
            radial_fits(*self, spans@, if old(canvas)@.len() < target@.len() { old(canvas)@.len() as int } else { target@.len() as int }),
        ensures
            final(canvas)@ == converged_ranges(old(canvas)@, target@, radial_ranges(*self, spans@, self.height as int), self.step),
            r == finished,
    {
        let ghost start_canvas = canvas@;
        let n: usize = if canvas.len() < target.len() { canvas.len() } else { target.len() };
        let ghost len: int = n as int;
        let stride = self.width * 4;
        let cx = self.center.0;
        let step = self.step;
        let mut line: usize = 0;
        while line < self.height
            invariant
                line <= self.height,
                stride == self.width * 4,
                n as int == len,
                cx == self.center.0,
                step == self.step,
                canvas@.len() == start_canvas.len(),
                len == if canvas@.len() < target@.len() { canvas@.len() as int } else { target@.len() as int },
                radial_fits(*self, spans@, len),
                canvas@ == converged_ranges(start_canvas, target@, radial_ranges(*self, spans@, line as int), step),
            decreases self.height - line,
        {
            let dx = spans[line];
            assert(radial_line_fits(*self, line as int, spans@[line as int], len));
            let lo = if cx >= dx { cx - dx } else { 0 };
            let hi = if self.width < cx + dx { self.width } else { cx + dx };
            let start = lo * 4;
            let end = hi * 4;
            let ghost before = canvas@;
            let ghost ranges = radial_line_ranges(*self, line as int, dx);
            proof {
                lemma_converged_ranges_concat(start_canvas, target@, radial_ranges(*self, spans@, line as int), ranges, step);
                assert(radial_ranges(*self, spans@, line + 1) == radial_ranges(*self, spans@, line as int) + ranges);
                assert(end <= stride) by (nonlinear_arith)
                    requires
                        hi <= self.width,
                        end == hi * 4,
                        stride == self.width * 4,
                ;
                assert(line * stride <= len) by (nonlinear_arith)
                    requires
                        line < self.height,
                        self.mode == RadialMode::Grow ==> line * stride + end <= len,
                        self.mode == RadialMode::Outer ==> line * stride + stride <= len,
                        end >= 0,
                        stride >= 0,
                ;
            }
            let row = line * stride;
            match self.mode {
                RadialMode::Grow => {
                    converge_range(canvas, target, row + start, row + end, step);
                    proof {
                        assert(ranges == seq![(row + start, row + end)]);
                        lemma_converged_ranges_one(before, target@, (row + start, row + end), step);
                    }
                },
                RadialMode::Outer => {
                    converge_range(canvas, target, row, row + start, step);
                    converge_range(canvas, target, row + end, row + stride, step);
                    proof {
                        assert(ranges == seq![(row as int, row + start), (row + end, row + stride)]);
                        lemma_converged_ranges_two(before, target@, (row as int, row + start), (row + end, row + stride), step);
                    }
                },
            }
            line = line + 1;
        }
        finished
    }
}

impl Wave {
    /// Converges each row's primary span and band pixels; returns whether the curve has ended.
    pub fn run(&self, canvas: &mut [u8], target: &[u8], rows: &Vec<WaveRow>, finished: bool) -> (r: bool)
        requires
            wave_fits(*self, rows@, if old(canvas)@.len() < target@.len() { old(canvas)@.len() as int } else { target@.len() as int }),
        ensures
            final(canvas)@ == converged_ranges(old(canvas)@, target@, wave_ranges(*self, rows@, self.height as int), self.step),
            r == finished,
    {
        let ghost start_canvas = canvas@;
        let n: usize = if canvas.len() < target.len() { canvas.len() } else { target.len() };
        let ghost len: int = n as int;
        let stride = self.width * 4;
        let step = self.step;
        let mut line: usize = 0;
        while line < self.height
            invariant
                line <= self.height,
                stride == self.width * 4,
                step == self.step,
                n as int == len,
                canvas@.len() == start_canvas.len(),
                len == if canvas@.len() < target@.len() { canvas@.len() as int } else { target@.len() as int },
                wave_fits(*self, rows@, len),
                canvas@ == converged_ranges(start_canvas, target@, wave_ranges(*self, rows@, line as int), step),
            decreases self.height - line,
        {
            let plan = &rows[line];
            assert(wave_line_fits(*self, line as int, rows@[line as int], len));
            let ghost band = plan.band@;
            let ghost ranges = wave_line_ranges(*self, line as int, plan.primary, band);
            proof {
                lemma_converged_ranges_concat(start_canvas, target@, wave_ranges(*self, rows@, line as int), ranges, step);
                assert(wave_ranges(*self, rows@, line + 1) == wave_ranges(*self, rows@, line as int) + ranges);
                assert(line * stride <= len) by (nonlinear_arith)
                    requires
                        line * stride + plan.primary.1 <= len,
                ;
            }
            let row = line * stride;
            let ghost before = canvas@;
            converge_range(canvas, target, row + plan.primary.0, row + plan.primary.1, step);
            proof {
                assert(ranges.subrange(0, 1) =~= seq![(row + plan.primary.0, row + plan.primary.1)]);
                lemma_converged_ranges_one(before, target@, (row + plan.primary.0, row + plan.primary.1), step);
            }
            let mut k: usize = 0;
            while k < plan.band.len()
                invariant
                    k <= plan.band@.len(),
                    band == plan.band@,
                    canvas@.len() == start_canvas.len(),
                    n as int == len,
                    row == line * stride,
                    stride == self.width * 4,
                    wave_line_fits(*self, line as int, *plan, len),
                    len == if canvas@.len() < target@.len() { canvas@.len() as int } else { target@.len() as int },
                    ranges == wave_line_ranges(*self, line as int, plan.primary, band),
                    ranges.len() == 1 + band.len(),
                    canvas@ == converged_ranges(before, target@, ranges.subrange(0, k + 1), step),
                decreases plan.band@.len() - k,
            {
                let c = plan.band[k];
                assert(row + band[k as int] + 4 <= len);
                converge_range(canvas, target, row + c, row + c + 4, step);
                proof {
                    let sub = ranges.subrange(0, k + 2);
                    assert(sub.drop_last() =~= ranges.subrange(0, k + 1));
                    assert(sub.last() == ranges[k + 1]);
                    assert(ranges[k + 1] == (row + c, row + c + 4));
                }
                k = k + 1;
            }
            assert(ranges.subrange(0, k + 1) =~= ranges);
            line = line + 1;
        }
        finished
    }
}

} // verus!
