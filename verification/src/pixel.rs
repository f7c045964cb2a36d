use vstd::prelude::*;

verus! {

/// The value a channel byte takes after one convergence frame: it moves from
/// `old` toward `new` by at most `step`, and never past `new`.
pub open spec fn converge_byte(old: u8, new: u8, step: u8) -> u8 {
    let diff: int = if old > new { old - new } else { new - old };
    let delta: int = if step < diff { step as int } else { diff };
    if old > new { (old - delta) as u8 } else { (old + delta) as u8 }
}

/// The distance of a byte from its target.
pub open spec fn byte_distance(a: u8, b: u8) -> int {
    if a > b { a - b } else { b - a }
}

/// The largest distance of one of the first `n` bytes of `s` from the byte
/// of `t` at the same index; 0 for no bytes.
pub open spec fn max_distance(s: Seq<u8>, t: Seq<u8>, n: int) -> int
    decreases n,
{
    if n <= 0 {
        0
    } else {
        let d = byte_distance(s[n - 1], t[n - 1]);
        let m = max_distance(s, t, n - 1);
        if d > m { d } else { m }
    }
}

/// No byte among the first `n` is farther than the largest distance, and
/// where that distance is positive some byte `w` is exactly that far.
pub proof fn lemma_max_distance(s: Seq<u8>, t: Seq<u8>, n: int) -> (w: int)
    ensures
        max_distance(s, t, n) >= 0,
        forall|j: int| 0 <= j < n ==> #[trigger] byte_distance(s[j], t[j]) <= max_distance(s, t, n),
        max_distance(s, t, n) > 0 ==> 0 <= w < n && byte_distance(s[w], t[w]) == max_distance(s, t, n),
    decreases n,
{
    if n <= 0 {
        0
    } else {
        let v = lemma_max_distance(s, t, n - 1);
        if byte_distance(s[n - 1], t[n - 1]) > max_distance(s, t, n - 1) {
            n - 1
        } else {
            v
        }
    }
}

/// `s` with every byte whose index lies in `[lo, hi)` moved one convergence
/// frame toward the byte of `t` at the same index.
pub open spec fn converged(s: Seq<u8>, t: Seq<u8>, lo: int, hi: int, step: u8) -> Seq<u8> {
    Seq::new(s.len(), |i: int| if lo <= i < hi { converge_byte(s[i], t[i], step) } else { s[i] })
}

/// `s` after one convergence frame over each range of `ranges`, in order.
pub open spec fn converged_ranges(s: Seq<u8>, t: Seq<u8>, ranges: Seq<(int, int)>, step: u8) -> Seq<u8>
    decreases ranges.len(),
{
    if ranges.len() == 0 {
        s
    } else {
        let last = ranges.last();
        converged(converged_ranges(s, t, ranges.drop_last(), step), t, last.0, last.1, step)
    }
}

/// Converging over `a` and then over `b` is converging over `a + b`.
pub proof fn lemma_converged_ranges_concat(s: Seq<u8>, t: Seq<u8>, a: Seq<(int, int)>, b: Seq<(int, int)>, step: u8)
    ensures
        converged_ranges(s, t, a + b, step) == converged_ranges(converged_ranges(s, t, a, step), t, b, step),
    decreases b.len(),
{
    if b.len() == 0 {
        assert(a + b =~= a);
    } else {
        lemma_converged_ranges_concat(s, t, a, b.drop_last(), step);
        assert((a + b).drop_last() =~= a + b.drop_last());
        assert((a + b).last() == b.last());
    }
}

/// Converging over one range.
pub proof fn lemma_converged_ranges_one(s: Seq<u8>, t: Seq<u8>, r: (int, int), step: u8)
    ensures
        converged_ranges(s, t, seq![r], step) == converged(s, t, r.0, r.1, step),
{
    assert(seq![r].drop_last() =~= Seq::<(int, int)>::empty());
    assert(converged_ranges(s, t, seq![r].drop_last(), step) == s);
    assert(seq![r].last() == r);
}

/// Converging over two ranges, one after the other.
pub proof fn lemma_converged_ranges_two(s: Seq<u8>, t: Seq<u8>, a: (int, int), b: (int, int), step: u8)
    ensures
        converged_ranges(s, t, seq![a, b], step) == converged(converged(s, t, a.0, a.1, step), t, b.0, b.1, step),
{
    assert(seq![a, b].drop_last() =~= seq![a]);
    lemma_converged_ranges_one(s, t, a, step);
}

/// The number of bytes that whole four-byte pixels of both buffers cover.
pub open spec fn whole_pixel_bytes(a: nat, b: nat) -> int {
    let n: int = if a < b { a as int } else { b as int };
    (n / 4) * 4
}

/// One blended byte: `old` weighted by `256 - alpha` and `new` by `alpha`, in 1/256ths.
pub open spec fn blend_byte(old: u8, new: u8, alpha: u16) -> u8 {
    ((old * (256 - alpha) + new * alpha) / 256) as u8
}

/// `s` blended toward `t` over the bytes that both buffers have.
pub open spec fn blended(s: Seq<u8>, t: Seq<u8>, alpha: u16) -> Seq<u8> {
    Seq::new(s.len(), |i: int| if i < t.len() { blend_byte(s[i], t[i], alpha) } else { s[i] })
}

/// `k` convergence frames applied to one byte.
pub open spec fn converge_byte_frames(old: u8, new: u8, step: u8, k: nat) -> u8
    decreases k,
{
    if k == 0 {
        old
    } else {
        converge_byte(converge_byte_frames(old, new, step, (k - 1) as nat), new, step)
    }
}

/// One convergence frame shortens a byte's distance to its target by
/// `step`, down to zero, and never moves it past the target.
pub proof fn lemma_converge_byte(old: u8, new: u8, step: u8)
    ensures
        byte_distance(converge_byte(old, new, step), new) == (if byte_distance(old, new) > step {
            byte_distance(old, new) - step
        } else {
            0
        }),
        old <= new ==> old <= converge_byte(old, new, step) <= new,
        new <= old ==> new <= converge_byte(old, new, step) <= old,
        byte_distance(converge_byte(old, new, step), old) <= step,
{
}

/// After `k` convergence frames a byte is `k * step` closer to its target, or on it.
pub proof fn lemma_converge_byte_frames(old: u8, new: u8, step: u8, k: nat)
    ensures
        byte_distance(converge_byte_frames(old, new, step, k), new) == (if byte_distance(old, new) > k * step {
            byte_distance(old, new) - k * step
        } else {
            0
        }),
    decreases k,
{
    if k == 0 {
        assert(k * step == 0);
    } else {
        let prev = converge_byte_frames(old, new, step, (k - 1) as nat);
        lemma_converge_byte_frames(old, new, step, (k - 1) as nat);
        lemma_converge_byte(prev, new, step);
        assert(converge_byte_frames(old, new, step, k) == converge_byte(prev, new, step));
        assert(k * step == (k - 1) * step + step) by (nonlinear_arith)
            requires
                k > 0,
        ;
    }
}

/// A blended byte lies between the old byte and the new one; a weight of 0
/// keeps the old byte and a weight of 256 gives the new one.
pub proof fn lemma_blend_byte(old: u8, new: u8, alpha: u16)
    requires
        alpha <= 256,
    ensures
        old <= new ==> old <= blend_byte(old, new, alpha) <= new,
        new <= old ==> new <= blend_byte(old, new, alpha) <= old,
        alpha == 0 ==> blend_byte(old, new, alpha) == old,
        alpha == 256 ==> blend_byte(old, new, alpha) == new,
{
    let a = alpha as int;
    let o = old as int;
    let n = new as int;
    let sum = o * (256 - a) + n * a;
    assert(o <= n ==> o * 256 <= sum <= n * 256) by (nonlinear_arith)
        requires
            0 <= a <= 256,
            sum == o * (256 - a) + n * a,
    ;
    assert(n <= o ==> n * 256 <= sum <= o * 256) by (nonlinear_arith)
        requires
            0 <= a <= 256,
            sum == o * (256 - a) + n * a,
    ;
    assert(a == 256 ==> sum / 256 == n) by (nonlinear_arith)
        requires
            sum == o * (256 - a) + n * a,
    ;
    assert(a == 0 ==> sum / 256 == o) by (nonlinear_arith)
        requires
            sum == o * (256 - a) + n * a,
    ;
    assert(0 <= sum <= 255 * 256) by (nonlinear_arith)
        requires
            0 <= a <= 256,
            0 <= o <= 255,
            0 <= n <= 255,
            sum == o * (256 - a) + n * a,
    ;
}

/// A blended byte weighs the old byte by `256 - alpha` and the new one by
/// `alpha`, in 1/256ths, rounded down: for every weight up to a whole, the
/// byte is exactly `(old * (256 - alpha) + new * alpha) / 256`.
pub proof fn lemma_blend_weights(old: u8, new: u8, alpha: u16)
    requires
        alpha <= 256,
    ensures
        blend_byte(old, new, alpha) as int == (old as int * (256 - alpha as int) + new as int * alpha as int) / 256,
{
    let o = old as int;
    let n = new as int;
    let a = alpha as int;
    let sum = o * (256 - a) + n * a;
    assert(0 <= sum <= 255 * 256) by (nonlinear_arith)
        requires
            0 <= a <= 256,
            0 <= o <= 255,
            0 <= n <= 255,
            sum == o * (256 - a) + n * a,
    ;
    assert(0 <= sum / 256 <= 255);
}

/// Converging over any ranges moves no byte away from its target.
pub proof fn lemma_converged_ranges_closer(s: Seq<u8>, t: Seq<u8>, ranges: Seq<(int, int)>, step: u8)
    ensures
        converged_ranges(s, t, ranges, step).len() == s.len(),
        forall|j: int|
            0 <= j < s.len() ==> byte_distance(#[trigger] converged_ranges(s, t, ranges, step)[j], t[j])
                <= byte_distance(s[j], t[j]),
    decreases ranges.len(),
{
    if ranges.len() > 0 {
        let prev = converged_ranges(s, t, ranges.drop_last(), step);
        lemma_converged_ranges_closer(s, t, ranges.drop_last(), step);
        assert forall|j: int| 0 <= j < s.len() implies byte_distance(#[trigger] converged_ranges(s, t, ranges, step)[j], t[j])
            <= byte_distance(s[j], t[j]) by {
            lemma_converge_byte(prev[j], t[j], step);
            assert(byte_distance(prev[j], t[j]) <= byte_distance(s[j], t[j]));
        }
    }
}

/// Whether index `x` lies in the range `r`.
pub open spec fn in_range(r: (int, int), x: int) -> bool {
    r.0 <= x < r.1
}

/// No index lies in two of the ranges.
pub open spec fn ranges_disjoint(ranges: Seq<(int, int)>) -> bool {
    forall|a: int, b: int, x: int|
        #![trigger in_range(ranges[a], x), in_range(ranges[b], x)]
        0 <= a < b < ranges.len() && in_range(ranges[a], x) ==> !in_range(ranges[b], x)
}

/// Whether index `x` lies in one of the ranges.
pub open spec fn covered(ranges: Seq<(int, int)>, x: int) -> bool {
    exists|a: int| 0 <= a < ranges.len() && #[trigger] in_range(ranges[a], x)
}

/// Over ranges that do not overlap, each byte of a covered index takes one
/// convergence frame and every other byte is kept.
pub proof fn lemma_converged_ranges_disjoint(s: Seq<u8>, t: Seq<u8>, ranges: Seq<(int, int)>, step: u8)
    requires
        ranges_disjoint(ranges),
    ensures
        converged_ranges(s, t, ranges, step).len() == s.len(),
        forall|j: int|
            0 <= j < s.len() ==> #[trigger] converged_ranges(s, t, ranges, step)[j] == (if covered(ranges, j) {
                converge_byte(s[j], t[j], step)
            } else {
                s[j]
            }),
    decreases ranges.len(),
{
    if ranges.len() > 0 {
        let init = ranges.drop_last();
        let last = ranges.last();
        assert(ranges_disjoint(init)) by {
            assert forall|a: int, b: int, x: int|
                #![trigger in_range(init[a], x), in_range(init[b], x)]
                0 <= a < b < init.len() && in_range(init[a], x) implies !in_range(init[b], x) by {
                assert(init[a] == ranges[a] && init[b] == ranges[b]);
            }
        }
        lemma_converged_ranges_disjoint(s, t, init, step);
        let prev = converged_ranges(s, t, init, step);
        assert forall|j: int| 0 <= j < s.len() implies #[trigger] converged_ranges(s, t, ranges, step)[j] == (if covered(
            ranges,
            j,
        ) {
            converge_byte(s[j], t[j], step)
        } else {
            s[j]
        }) by {
            assert(converged_ranges(s, t, ranges, step) == converged(prev, t, last.0, last.1, step));
            if in_range(last, j) {
                assert(in_range(ranges[ranges.len() - 1], j));
                if covered(init, j) {
                    let a = choose|a: int| 0 <= a < init.len() && #[trigger] in_range(init[a], j);
                    assert(in_range(ranges[a], j));
                    assert(false);
                }
                assert(covered(ranges, j));
            } else {
                if covered(ranges, j) {
                    let a = choose|a: int| 0 <= a < ranges.len() && #[trigger] in_range(ranges[a], j);
                    assert(a < init.len());
                    assert(in_range(init[a], j));
                }
                if covered(init, j) {
                    let a = choose|a: int| 0 <= a < init.len() && #[trigger] in_range(init[a], j);
                    assert(in_range(ranges[a], j));
                }
            }
        }
    }
}

/// A whole-weight blend gives the target over the bytes both buffers have.
pub proof fn lemma_blended_full(s: Seq<u8>, t: Seq<u8>)
    ensures
        forall|j: int| 0 <= j < s.len() && j < t.len() ==> #[trigger] blended(s, t, 256)[j] == t[j],
{
    assert forall|j: int| 0 <= j < s.len() && j < t.len() implies #[trigger] blended(s, t, 256)[j] == t[j] by {
        lemma_blend_byte(s[j], t[j], 256);
    }
}

/// Moves `old` one step toward `new`.
pub fn converge(old: u8, new: u8, step: u8) -> (r: u8)
    ensures
        r == converge_byte(old, new, step),
{
    let diff = if old > new { old - new } else { new - old };
    let delta = if step < diff { step } else { diff };
    if old > new { old - delta } else { old + delta }
}

/// Moves every byte of `canvas[lo..hi]` one step toward the same byte of `target`.
pub fn converge_range(canvas: &mut [u8], target: &[u8], lo: usize, hi: usize, step: u8)
    requires
        lo <= hi,
        hi <= old(canvas)@.len(),
        hi <= target@.len(),
    ensures
        final(canvas)@ == converged(old(canvas)@, target@, lo as int, hi as int, step),
{
    let ghost start = canvas@;
    let mut i = lo;
    while i < hi
        invariant
            lo <= i <= hi,
            hi <= canvas@.len(),
            hi <= target@.len(),
            canvas@.len() == start.len(),
            forall|j: int|
                0 <= j < canvas@.len() ==> #[trigger] canvas@[j] == (if lo <= j < i {
                    converge_byte(start[j], target@[j], step)
                } else {
                    start[j]
                }),
        decreases hi - i,
    {
        let v = converge(canvas[i], target[i], step);
        canvas[i] = v;
        i = i + 1;
    }
    assert(canvas@ =~= converged(start, target@, lo as int, hi as int, step));
}

/// One frame of the per-pixel convergence toward `target` over all whole
/// pixels that both buffers hold; returns whether those pixels now equal the target.
pub fn cleanup(canvas: &mut [u8], target: &[u8], step: u8) -> (done: bool)
    ensures
        final(canvas)@ == converged(
            old(canvas)@,
            target@,
            0,
            whole_pixel_bytes(old(canvas)@.len(), target@.len()),
            step,
        ),
        done == (final(canvas)@.subrange(0, whole_pixel_bytes(old(canvas)@.len(), target@.len()))
            == target@.subrange(0, whole_pixel_bytes(old(canvas)@.len(), target@.len()))),
{
    let ghost start = canvas@;
    let ghost n = whole_pixel_bytes(canvas@.len(), target@.len());
    let len = if canvas.len() < target.len() { canvas.len() } else { target.len() };
    let chunks = len / 4;
    assert(chunks * 4 <= len) by (nonlinear_arith)
        requires
            chunks == len / 4,
    ;
    let mut done = true;
    let mut c: usize = 0;
    while c < chunks
        invariant
            chunks * 4 == n,
            n <= len,
            len <= canvas@.len(),
            len <= target@.len(),
            c <= chunks,
            canvas@.len() == start.len(),
            forall|j: int|
                0 <= j < canvas@.len() ==> #[trigger] canvas@[j] == (if 0 <= j < c * 4 {
                    converge_byte(start[j], target@[j], step)
                } else {
                    start[j]
                }),
            done == (forall|j: int| 0 <= j < c * 4 ==> #[trigger] canvas@[j] == target@[j]),
        decreases chunks - c,
    {
        assert(c * 4 + 4 <= chunks * 4) by (nonlinear_arith)
            requires
                c < chunks,
        ;
        let base = c * 4;
        let ghost before = canvas@;
        let mut k: usize = 0;
        while k < 4
            invariant
                base == c * 4,
                c < chunks,
                chunks * 4 == n,
                n <= canvas@.len(),
                n <= target@.len(),
                k <= 4,
                canvas@.len() == start.len(),
                forall|j: int|
                    0 <= j < canvas@.len() ==> #[trigger] canvas@[j] == (if 0 <= j < base + k {
                        converge_byte(start[j], target@[j], step)
                    } else {
                        start[j]
                    }),
            decreases 4 - k,
        {
            let v = converge(canvas[base + k], target[base + k], step);
            canvas[base + k] = v;
            k = k + 1;
        }
        let same = canvas[base] == target[base] && canvas[base + 1] == target[base + 1]
            && canvas[base + 2] == target[base + 2] && canvas[base + 3] == target[base + 3];
        proof {
            assert(same == (forall|j: int| base <= j < base + 4 ==> #[trigger] canvas@[j] == target@[j])) by {
                if same {
                    assert forall|j: int| base <= j < base + 4 implies #[trigger] canvas@[j] == target@[j] by {
                        assert(j == base || j == base + 1 || j == base + 2 || j == base + 3);
                    }
                }
            }
        }
        assert forall|j: int| 0 <= j < base implies #[trigger] canvas@[j] == before[j] by {}
        assert((c + 1) * 4 == base + 4);
        proof {
            let all_now = forall|j: int| 0 <= j < base + 4 ==> #[trigger] canvas@[j] == target@[j];
            if done && same {
                assert forall|j: int| 0 <= j < base + 4 implies #[trigger] canvas@[j] == target@[j] by {
                    if j < base {
                        assert(before[j] == target@[j]);
                    }
                }
            }
            if all_now {
                assert forall|j: int| 0 <= j < base implies #[trigger] before[j] == target@[j] by {
                    assert(canvas@[j] == target@[j]);
                }
            }
        }
        done = done && same;
        c = c + 1;
    }
    assert(canvas@ =~= converged(start, target@, 0, n, step));
    proof {
        if done {
            assert(canvas@.subrange(0, n) =~= target@.subrange(0, n));
        } else {
            let j = choose|j: int| 0 <= j < n && canvas@[j] != target@[j];
            assert(canvas@.subrange(0, n)[j] != target@.subrange(0, n)[j]);
        }
    }
    done
}

/// Copies `target` over `canvas`, which has the same length.
pub fn copy_into(canvas: &mut [u8], target: &[u8])
    requires
        old(canvas)@.len() == target@.len(),
    ensures
        final(canvas)@ == target@,
{
    let n = canvas.len();
    let mut i: usize = 0;
    while i < n
        invariant
            i <= n,
            n == canvas@.len(),
            n == target@.len(),
            forall|j: int| 0 <= j < i ==> #[trigger] canvas@[j] == target@[j],
        decreases n - i,
    {
        canvas[i] = target[i];
        i = i + 1;
    }
    assert(canvas@ =~= target@);
}

/// Blends one byte; no sum overflows `u16` while `alpha <= 256`.
pub fn blend(old: u8, new: u8, alpha: u16) -> (r: u8)
    requires
        alpha <= 256,
    ensures
        r == blend_byte(old, new, alpha),
        r as int == (old as int * (256 - alpha as int) + new as int * alpha as int) / 256,
{
    proof {
        lemma_blend_weights(old, new, alpha);
    }
    let inv = 256 - alpha;
    let o = old as u16;
    let n = new as u16;
    assert(o * inv + n * alpha <= 255 * 256) by (nonlinear_arith)
        requires
            o <= 255,
            n <= 255,
            inv + alpha == 256,
    ;
    let sum = o * inv + n * alpha;
    assert(sum >> 8u16 == sum / 256) by (bit_vector);
    (sum >> 8) as u8
}

/// Blends every byte of `canvas` that `target` also has toward it with weight `alpha / 256`.
pub fn blend_into(canvas: &mut [u8], target: &[u8], alpha: u16)
    requires
        alpha <= 256,
    ensures
        final(canvas)@ == blended(old(canvas)@, target@, alpha),
{
    let ghost start = canvas@;
    let n = if canvas.len() < target.len() { canvas.len() } else { target.len() };
    let mut i: usize = 0;
    while i < n
        invariant
            alpha <= 256,
            i <= n,
            n <= canvas@.len(),
            n <= target@.len(),
            n == canvas@.len() || n == target@.len(),
            canvas@.len() == start.len(),
            forall|j: int|
                0 <= j < canvas@.len() ==> #[trigger] canvas@[j] == (if j < i {
                    blend_byte(start[j], target@[j], alpha)
                } else {
                    start[j]
                }),
        decreases n - i,
    {
        let v = blend(canvas[i], target[i], alpha);
        canvas[i] = v;
        i = i + 1;
    }
    assert(canvas@ =~= blended(start, target@, alpha));
}

} // verus!
