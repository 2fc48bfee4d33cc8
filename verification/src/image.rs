//! On-chip denoising of RGB565 frames: a temporal median against speckle, and a shift of each
//! row's brightness against banding.

use vstd::arithmetic::div_mod::{lemma_div_is_ordered, lemma_hoist_over_denominator};
use vstd::prelude::*;

use crate::pixel::{blue, green, pixel_at, red};

verus! {

/// The middle one of three values.
pub open spec fn median(a: u32, b: u32, c: u32) -> u32 {
    if a <= b {
        if b <= c {
            b
        } else if a <= c {
            c
        } else {
            a
        }
    } else if a <= c {
        a
    } else if b <= c {
        c
    } else {
        b
    }
}

/// The pixel with the given channels.
pub open spec fn rgb565(r: u32, g: u32, b: u32) -> u32 {
    (r * 2048 + g * 32 + b) as u32
}

/// Median of three pixels, channel by channel.
pub open spec fn median_px(p0: u32, p1: u32, p2: u32) -> u32 {
    rgb565(
        median(red(p0), red(p1), red(p2)),
        median(green(p0), green(p1), green(p2)),
        median(blue(p0), blue(p1), blue(p2)),
    )
}

/// The word with the given pixels in its low and high half.
pub open spec fn word(lo: u32, hi: u32) -> u32 {
    (lo + hi * 0x1_0000) as u32
}

/// Median of three words, pixel by pixel.
pub open spec fn median_word(w0: u32, w1: u32, w2: u32) -> u32 {
    word(
        median_px(w0 % 0x1_0000, w1 % 0x1_0000, w2 % 0x1_0000),
        median_px(w0 / 0x1_0000, w1 / 0x1_0000, w2 / 0x1_0000),
    )
}

/// `a` with its first `n` words replaced by the medians.
pub open spec fn median_frame(a: Seq<u32>, b: Seq<u32>, c: Seq<u32>, n: int) -> Seq<u32> {
    Seq::new(
        a.len(),
        |j: int|
            if j < n {
                median_word(a[j], b[j], c[j])
            } else {
                a[j]
            },
    )
}

/// The middle one of three values.
pub fn med3(a: u32, b: u32, c: u32) -> (m: u32)
    requires
        a + b + c <= u32::MAX,
    ensures
        m == median(a, b, c),
{
    let ab: u32 = if a >= b {
        a
    } else {
        b
    };
    let mx: u32 = if ab >= c {
        ab
    } else {
        c
    };
    let ba: u32 = if a <= b {
        a
    } else {
        b
    };
    let mn: u32 = if ba <= c {
        ba
    } else {
        c
    };
    a + b + c - mx - mn
}

/// Median of three RGB565 pixels, channel by channel. It rejects an outlier of one frame.
pub fn med_px(p0: u32, p1: u32, p2: u32) -> (p: u32)
    ensures
        p == median_px(p0, p1, p2),
        p < 0x1_0000,
{
    let r: u32 = med3(p0 / 2048 % 32, p1 / 2048 % 32, p2 / 2048 % 32);
    let g: u32 = med3(p0 / 32 % 64, p1 / 32 % 64, p2 / 32 % 64);
    let b: u32 = med3(p0 % 32, p1 % 32, p2 % 32);
    r * 2048 + g * 32 + b
}

/// Temporal median of three frames, into the first one.
pub fn denoise_median(a: &mut [u32], b: &[u32], c: &[u32], w: usize, h: usize)
    requires
        w * h <= usize::MAX,
        (w * h) / 2 <= old(a)@.len(),
        (w * h) / 2 <= b@.len(),
        (w * h) / 2 <= c@.len(),
    ensures
        final(a)@ == median_frame(old(a)@, b@, c@, (w * h) / 2),
{
    let n: usize = w * h / 2;
    let ghost a0 = a@;
    let mut j: usize = 0;
    while j < n
        invariant
            j <= n,
            n <= a0.len(),
            n <= b@.len(),
            n <= c@.len(),
            a@ == median_frame(a0, b@, c@, j as int),
        decreases n - j,
    {
        let (w0, w1, w2) = (a[j], b[j], c[j]);
        let lo: u32 = med_px(w0 % 0x1_0000, w1 % 0x1_0000, w2 % 0x1_0000);
        let hi: u32 = med_px(w0 / 0x1_0000, w1 / 0x1_0000, w2 / 0x1_0000);
        a[j] = lo + hi * 0x1_0000;
        j = j + 1;
        assert(a@ =~= median_frame(a0, b@, c@, j as int));
    }
    assert(a@ =~= median_frame(a0, b@, c@, n as int));
}

/// `v` limited to `0..=max`.
pub open spec fn clamped(v: int, max: i32) -> u32 {
    if v < 0 {
        0
    } else if v > max {
        max as u32
    } else {
        v as u32
    }
}

/// Half of `off`, rounded towards zero.
pub open spec fn half(off: int) -> int {
    if off >= 0 {
        off / 2
    } else {
        -((-off) / 2)
    }
}

/// A pixel with its brightness shifted by `off` green units, which count half for red and blue.
pub open spec fn shifted_px(p: u32, off: int) -> u32 {
    rgb565(
        clamped(red(p) + half(off), 0x1f),
        clamped(green(p) + off, 0x3f),
        clamped(blue(p) + half(off), 0x1f),
    )
}

/// Limit a channel to `0..=max`.
pub fn clamp_ch(v: i32, max: i32) -> (r: u32)
    ensures
        r == clamped(v as int, max),
{
    if v < 0 {
        0
    } else if v > max {
        max as u32
    } else {
        v as u32
    }
}

/// Shift one RGB565 pixel's brightness by `off` (in 6-bit green units; red and blue by half).
pub fn apply_off(p: u32, off: i32) -> (r: u32)
    requires
        green(p) + off <= i32::MAX,
    ensures
        r == shifted_px(p, off as int),
        r < 0x1_0000,
{
    let o2: i32 = off / 2;
    let r: u32 = clamp_ch((p / 2048 % 32) as i32 + o2, 0x1f);
    let g: u32 = clamp_ch((p / 32 % 64) as i32 + off, 0x3f);
    let b: u32 = clamp_ch((p % 32) as i32 + o2, 0x1f);
    r * 2048 + g * 32 + b
}

/// Sum of the green channels of both pixels of a word.
pub open spec fn word_green(word: u32) -> int {
    green(word % 0x1_0000) + green(word / 0x1_0000)
}

/// Sum of the green channels of words `from..to`.
pub open spec fn green_sum(words: Seq<u32>, from: int, to: int) -> int
    decreases to - from,
{
    if to <= from {
        0
    } else {
        green_sum(words, from, to - 1) + word_green(words[to - 1])
    }
}

/// Mean brightness of a `w` x `h` frame, in green units.
pub open spec fn frame_mean(words: Seq<u32>, w: int, h: int) -> int {
    green_sum(words, 0, (w / 2) * h) / (w * h)
}

/// Mean brightness of row `row` of a frame of width `w`, in green units.
pub open spec fn row_mean(words: Seq<u32>, w: int, row: int) -> int {
    green_sum(words, row * (w / 2), (row + 1) * (w / 2)) / w
}

/// A word with the brightness of both its pixels shifted.
pub open spec fn shifted_word(x: u32, off: int) -> u32 {
    word(shifted_px(x % 0x1_0000, off), shifted_px(x / 0x1_0000, off))
}

/// A frame with each of its rows shifted by what its mean lacks of the mean of the frame.
pub open spec fn destriped(words: Seq<u32>, w: int, h: int) -> Seq<u32> {
    Seq::new(
        words.len(),
        |j: int|
            if j < (w / 2) * h {
                shifted_word(words[j], frame_mean(words, w, h) - row_mean(words, w, j / (w / 2)))
            } else {
                words[j]
            },
    )
}

proof fn lemma_green_sum_bounds(words: Seq<u32>, from: int, to: int)
    requires
        from <= to,
    ensures
        0 <= green_sum(words, from, to) <= 126 * (to - from),
    decreases to - from,
{
    if from < to {
        lemma_green_sum_bounds(words, from, to - 1);
    }
}

/// Shifting by zero changes nothing.
pub proof fn law_shift_zero(x: u32)
    ensures
        shifted_word(x, 0) == x,
{
    let lo: u32 = x % 0x1_0000;
    let hi: u32 = x / 0x1_0000;
    assert(shifted_px(lo, 0) == lo);
    assert(shifted_px(hi, 0) == hi);
}

/// Sum of the green channels of words `from..to`.
fn sum_green(words: &[u32], from: usize, to: usize) -> (sum: u64)
    requires
        from <= to <= words@.len(),
        126 * (to - from) <= u64::MAX,
    ensures
        sum == green_sum(words@, from as int, to as int),
{
    let mut sum: u64 = 0;
    let mut j: usize = from;
    while j < to
        invariant
            from <= j <= to <= words@.len(),
            126 * (to - from) <= u64::MAX,
            sum == green_sum(words@, from as int, j as int),
        decreases to - j,
    {
        let x: u32 = words[j];
        proof {
            lemma_green_sum_bounds(words@, from as int, j as int);
        }
        sum = sum + (x % 0x1_0000 / 32 % 64) as u64 + (x / 0x1_0000 / 32 % 64) as u64;
        j = j + 1;
    }
    sum
}

/// Shift the brightness of words `from..to` by `off`.
fn shift_words(words: &mut [u32], from: usize, to: usize, off: i32)
    requires
        from <= to <= old(words)@.len(),
        off <= 0x3f,
    ensures
        final(words)@ == Seq::new(
            old(words)@.len(),
            |j: int|
                if from <= j < to {
                    shifted_word(old(words)@[j], off as int)
                } else {
                    old(words)@[j]
                },
        ),
{
    let ghost old_words = words@;
    let mut k: usize = from;
    while k < to
        invariant
            from <= k <= to <= old_words.len(),
            words@.len() == old_words.len(),
            off <= 0x3f,
            forall|j: int|
                0 <= j < old_words.len() ==> words@[j] == if from <= j < k {
                    shifted_word(old_words[j], off as int)
                } else {
                    old_words[j]
                },
        decreases to - k,
    {
        let x: u32 = words[k];
        let lo: u32 = apply_off(x % 0x1_0000, off);
        let hi: u32 = apply_off(x / 0x1_0000, off);
        words[k] = lo + hi * 0x1_0000;
        k = k + 1;
    }
}

proof fn lemma_same_green_sum(a: Seq<u32>, b: Seq<u32>, from: int, to: int)
    requires
        forall|j: int| from <= j < to ==> a[j] == b[j],
    ensures
        green_sum(a, from, to) == green_sum(b, from, to),
    decreases to - from,
{
    if from < to {
        lemma_same_green_sum(a, b, from, to - 1);
    }
}

/// The frame with its rows before `rows` destriped.
spec fn partly_destriped(words: Seq<u32>, w: int, h: int, rows: int) -> Seq<u32> {
    Seq::new(
        words.len(),
        |j: int|
            if j < (w / 2) * rows {
                shifted_word(words[j], frame_mean(words, w, h) - row_mean(words, w, j / (w / 2)))
            } else {
                words[j]
            },
    )
}

/// One row of `destripe`.
fn destripe_row(words: &mut [u32], w: usize, h: usize, row: usize, gmean: i32, Ghost(frame): Ghost<Seq<u32>>)
    requires
        0 < w,
        row < h,
        (w / 2) * h <= frame.len(),
        (w / 2) * h <= usize::MAX,
        126 * (w / 2) <= u32::MAX,
        gmean == frame_mean(frame, w as int, h as int),
        0 <= gmean <= 63,
        old(words)@ == partly_destriped(frame, w as int, h as int, row as int),
    ensures
        final(words)@ == partly_destriped(frame, w as int, h as int, row + 1),
{
    let wpr: usize = w / 2;
    assert(row * wpr <= (row + 1) * wpr <= wpr * h) by (nonlinear_arith)
        requires
            0 <= row < h,
            0 <= wpr,
    ;
    assert(wpr * row == row * wpr && wpr * (row + 1) == (row + 1) * wpr && (row + 1) * wpr == row
        * wpr + wpr) by (nonlinear_arith);
    let base: usize = row * wpr;
    let rsum: u64 = sum_green(words, base, base + wpr);
    proof {
        lemma_green_sum_bounds(words@, base as int, base + wpr);
        lemma_same_green_sum(words@, frame, base as int, base + wpr);
        assert(rsum / (w as u64) <= 63) by (nonlinear_arith)
            requires
                0 < w,
                rsum <= 126 * (w / 2),
        ;
    }
    let off: i32 = gmean - (rsum / w as u64) as i32;
    let ghost before = words@;
    if off != 0 {
        shift_words(words, base, base + wpr, off);
    }
    proof {
        assert(off == frame_mean(frame, w as int, h as int) - row_mean(
            frame,
            w as int,
            row as int,
        ));
        assert forall|j: int| 0 <= j < frame.len() implies words@[j] == partly_destriped(
            frame,
            w as int,
            h as int,
            row + 1,
        )[j] by {
            if base <= j < base + wpr {
                assert(j / (wpr as int) == row) by (nonlinear_arith)
                    requires
                        row * wpr <= j < row * wpr + wpr,
                ;
                law_shift_zero(frame[j]);
            }
        }
        assert(words@ =~= partly_destriped(frame, w as int, h as int, row + 1));
    }
}

/// Shift the brightness of each row towards the mean of the frame, against the banding of the
/// sensor. Green stands for brightness; the three channels move together, so colour is kept.
pub fn destripe(words: &mut [u32], w: usize, h: usize)
    requires
        0 < w,
        0 < h,
        w * h <= usize::MAX,
        126 * ((w / 2) * h) <= u64::MAX,
        126 * (w / 2) <= u32::MAX,
        (w / 2) * h <= old(words)@.len(),
    ensures
        final(words)@ == destriped(old(words)@, w as int, h as int),
{
    let ghost frame = words@;
    let wpr: usize = w / 2;
    assert(2 * (wpr * h) <= w * h && 0 < w * h && 0 <= wpr * h) by (nonlinear_arith)
        requires
            0 < w,
            0 < h,
            wpr == w / 2,
    ;
    let n: usize = wpr * h;
    let gsum: u64 = sum_green(words, 0, n);
    proof {
        lemma_green_sum_bounds(frame, 0, n as int);
        assert(gsum / ((w * h) as u64) <= 63) by (nonlinear_arith)
            requires
                0 < w * h <= u64::MAX,
                gsum <= 63 * (w * h),
        ;
    }
    let gmean: i32 = (gsum / (w * h) as u64) as i32;
    let mut row: usize = 0;
    assert(words@ =~= partly_destriped(frame, w as int, h as int, 0));
    while row < h
        invariant
            0 < w,
            row <= h,
            126 * (w / 2) <= u32::MAX,
            (w / 2) * h <= frame.len(),
            (w / 2) * h <= usize::MAX,
            gmean == frame_mean(frame, w as int, h as int),
            0 <= gmean <= 63,
            words@ == partly_destriped(frame, w as int, h as int, row as int),
        decreases h - row,
    {
        destripe_row(words, w, h, row, gmean, Ghost(frame));
        row = row + 1;
    }
    assert(words@ =~= destriped(frame, w as int, h as int));
}

proof fn lemma_rgb565(r: u32, g: u32, b: u32)
    requires
        r < 32,
        g < 64,
        b < 32,
    ensures
        rgb565(r, g, b) < 0x1_0000,
        red(rgb565(r, g, b)) == r,
        green(rgb565(r, g, b)) == g,
        blue(rgb565(r, g, b)) == b,
{
    let v = r * 2048 + g * 32 + b;
    assert(0 <= v < 0x1_0000);
    assert(v / 32 == r * 64 + g && v % 32 == b);
    assert(v / 2048 == r && v / 32 % 64 == g);
}

proof fn lemma_median_px_fits(p0: u32, p1: u32, p2: u32)
    ensures
        median_px(p0, p1, p2) < 0x1_0000,
{
    lemma_rgb565(
        median(red(p0), red(p1), red(p2)),
        median(green(p0), green(p1), green(p2)),
        median(blue(p0), blue(p1), blue(p2)),
    );
}

proof fn lemma_word(lo: u32, hi: u32)
    requires
        lo < 0x1_0000,
        hi < 0x1_0000,
    ensures
        word(lo, hi) % 0x1_0000 == lo,
        word(lo, hi) / 0x1_0000 == hi,
{
    let v = lo + hi * 0x1_0000;
    assert(0 <= v <= u32::MAX);
    assert(v / 0x1_0000 == hi && v % 0x1_0000 == lo);
}

/// Frames that are captured for one that is served: three to denoise, else one.
pub fn captures(denoise: bool) -> (n: usize)
    ensures
        n == if denoise {
            3usize
        } else {
            1
        },
{
    if denoise {
        3
    } else {
        1
    }
}

/// Denoise three frames into the first one: temporal median, and then destriping.
pub fn denoise(a: &mut [u32], b: &[u32], c: &[u32], w: usize, h: usize)
    requires
        0 < w,
        0 < h,
        w * h <= usize::MAX,
        126 * ((w / 2) * h) <= u64::MAX,
        126 * (w / 2) <= u32::MAX,
        (w / 2) * h <= old(a)@.len(),
        (w * h) / 2 <= old(a)@.len(),
        (w * h) / 2 <= b@.len(),
        (w * h) / 2 <= c@.len(),
    ensures
        final(a)@ == destriped(
            median_frame(old(a)@, b@, c@, (w * h) / 2),
            w as int,
            h as int,
        ),
{
    denoise_median(a, b, c, w, h);
    destripe(a, w, h);
}

/// Two pixels that agree outvote the third: an error of one frame alone leaves no trace.
pub proof fn law_median_rejects_outlier(p: u32, q: u32)
    requires
        p < 0x1_0000,
    ensures
        median_px(p, p, q) == p,
        median_px(p, q, p) == p,
        median_px(q, p, p) == p,
{
    assert(rgb565(red(p), green(p), blue(p)) == p);
}

/// The median does not depend on the order of the frames, and in each channel at least two of the
/// three pixels are at most, and at least two at least, the median.
pub proof fn law_median_is_middle(a: u32, b: u32, c: u32)
    ensures
        median(a, b, c) == median(b, a, c),
        median(a, b, c) == median(a, c, b),
        median(a, b, c) == a || median(a, b, c) == b || median(a, b, c) == c,
        ({
            let m = median(a, b, c);
            ||| a <= m && b <= m && m <= c
            ||| a <= m && c <= m && m <= b
            ||| b <= m && c <= m && m <= a
            ||| m <= a && m <= b && c <= m
            ||| m <= a && m <= c && b <= m
            ||| m <= b && m <= c && a <= m
        }),
{
}

/// Each pixel of the denoised frame is the median of the three pixels of its place.
pub proof fn law_median_frame_pixels(a: Seq<u32>, b: Seq<u32>, c: Seq<u32>, n: int, i: int)
    requires
        n <= a.len(),
        n <= b.len(),
        n <= c.len(),
        0 <= i < 2 * n,
    ensures
        pixel_at(median_frame(a, b, c, n), i) == median_px(
            pixel_at(a, i),
            pixel_at(b, i),
            pixel_at(c, i),
        ),
{
    let j = i / 2;
    let lo = median_px(a[j] % 0x1_0000, b[j] % 0x1_0000, c[j] % 0x1_0000);
    let hi = median_px(a[j] / 0x1_0000, b[j] / 0x1_0000, c[j] / 0x1_0000);
    lemma_median_px_fits(a[j] % 0x1_0000, b[j] % 0x1_0000, c[j] % 0x1_0000);
    lemma_median_px_fits(a[j] / 0x1_0000, b[j] / 0x1_0000, c[j] / 0x1_0000);
    lemma_word(lo, hi);
}

/// The shift of a row never makes a pixel leave its channels, and moves its green by `off` unless
/// the channel ends first.
pub proof fn law_shift_green(p: u32, off: int)
    ensures
        shifted_px(p, off) < 0x1_0000,
        green(shifted_px(p, off)) == clamped(green(p) + off, 0x3f),
        red(shifted_px(p, off)) == clamped(red(p) + half(off), 0x1f),
        blue(shifted_px(p, off)) == clamped(blue(p) + half(off), 0x1f),
{
    lemma_rgb565(
        clamped(red(p) + half(off), 0x1f),
        clamped(green(p) + off, 0x3f),
        clamped(blue(p) + half(off), 0x1f),
    );
}

proof fn lemma_word_green_shift(x: u32, off: int)
    ensures
        0 <= off ==> word_green(x) <= word_green(shifted_word(x, off)) <= word_green(x) + 2 * off,
        off <= 0 ==> word_green(x) + 2 * off <= word_green(shifted_word(x, off)) <= word_green(x),
{
    law_shift_green(x % 0x1_0000, off);
    law_shift_green(x / 0x1_0000, off);
    let lo = shifted_px(x % 0x1_0000, off);
    let hi = shifted_px(x / 0x1_0000, off);
    lemma_word(lo, hi);
}

proof fn lemma_row_shift(a: Seq<u32>, b: Seq<u32>, from: int, to: int, off: int)
    requires
        from <= to,
        forall|j: int| from <= j < to ==> b[j] == shifted_word(a[j], off),
    ensures
        0 <= off ==> green_sum(a, from, to) <= green_sum(b, from, to) <= green_sum(a, from, to) + (
        to - from) * (2 * off),
        off <= 0 ==> green_sum(a, from, to) + (to - from) * (2 * off) <= green_sum(b, from, to)
            <= green_sum(a, from, to),
    decreases to - from,
{
    if from < to {
        lemma_row_shift(a, b, from, to - 1, off);
        lemma_word_green_shift(a[to - 1], off);
        assert((to - from) * (2 * off) == (to - 1 - from) * (2 * off) + 2 * off)
            by (nonlinear_arith);
    } else {
        assert((to - from) * (2 * off) == 0) by (nonlinear_arith)
            requires
                to == from,
        ;
    }
}

/// Destriping moves the mean of every row towards the mean of the frame and never past it; a row
/// that already has that mean is left as it is.
pub proof fn law_destripe_converges(words: Seq<u32>, w: int, h: int, row: int)
    requires
        0 < w,
        0 <= row < h,
        (w / 2) * h <= words.len(),
    ensures
        ({
            let mean = frame_mean(words, w, h);
            let was = row_mean(words, w, row);
            let is = row_mean(destriped(words, w, h), w, row);
            &&& was <= mean ==> was <= is <= mean
            &&& mean <= was ==> mean <= is <= was
        }),
        row_mean(words, w, row) == frame_mean(words, w, h) ==> forall|j: int|
            row * (w / 2) <= j < (row + 1) * (w / 2) ==> destriped(words, w, h)[j] == words[j],
{
    let wpr = w / 2;
    let from = row * wpr;
    let to = (row + 1) * wpr;
    let off = frame_mean(words, w, h) - row_mean(words, w, row);
    let after = destriped(words, w, h);
    assert(0 <= from && to == from + wpr && to <= wpr * h) by (nonlinear_arith)
        requires
            0 <= row < h,
            0 <= wpr,
            from == row * wpr,
            to == (row + 1) * wpr,
    ;
    assert forall|j: int| from <= j < to implies after[j] == shifted_word(words[j], off) by {
        assert(j / wpr == row) by (nonlinear_arith)
            requires
                row * wpr <= j < row * wpr + wpr,
        ;
    }
    lemma_row_shift(words, after, from, to, off);
    let s = green_sum(words, from, to);
    let t = green_sum(after, from, to);
    let d = wpr * (2 * off);
    assert(off >= 0 ==> d <= off * w) by (nonlinear_arith)
        requires
            wpr == w / 2,
            d == wpr * (2 * off),
            0 < w,
    ;
    assert(off <= 0 ==> off * w <= d) by (nonlinear_arith)
        requires
            wpr == w / 2,
            d == wpr * (2 * off),
            0 < w,
    ;
    lemma_hoist_over_denominator(s, off, w as nat);
    if off >= 0 {
        lemma_div_is_ordered(s, t, w);
        lemma_div_is_ordered(t, s + off * w, w);
    }
    if off <= 0 {
        lemma_div_is_ordered(s + off * w, t, w);
        lemma_div_is_ordered(t, s, w);
    }
    if off == 0 {
        assert forall|j: int| from <= j < to implies after[j] == words[j] by {
            law_shift_zero(words[j]);
        }
    }
}

/// Sum of the green channels of the pixels from `from` to before `to`.
pub open spec fn green_total(words: Seq<u32>, from: int, to: int) -> int
    decreases to - from,
{
    if to <= from {
        0
    } else {
        green_total(words, from, to - 1) + pixel_at(words, to - 1) / 32 % 64
    }
}

/// Words hold two pixels each.
proof fn lemma_green_total(words: Seq<u32>, from: int, to: int)
    requires
        from <= to,
    ensures
        green_sum(words, from, to) == green_total(words, 2 * from, 2 * to),
    decreases to - from,
{
    if from < to {
        lemma_green_total(words, from, to - 1);
        let j = to - 1;
        assert((2 * j) / 2 == j && (2 * j) % 2 == 0);
        assert((2 * j + 1) / 2 == j && (2 * j + 1) % 2 == 1);
        assert(green_total(words, 2 * from, 2 * to) == green_total(words, 2 * from, 2 * to - 1)
            + pixel_at(words, 2 * j + 1) / 32 % 64);
        assert(green_total(words, 2 * from, 2 * to - 1) == green_total(words, 2 * from, 2 * to - 2)
            + pixel_at(words, 2 * j) / 32 % 64);
    }
}

/// `mean` is the mean, rounded down, of `count` numbers that sum up to `sum`.
pub open spec fn is_mean(mean: int, sum: int, count: int) -> bool {
    mean * count <= sum < (mean + 1) * count
}

proof fn lemma_mean_unique(mean: int, sum: int, count: int)
    requires
        0 < count,
    ensures
        is_mean(mean, sum, count) <==> mean == sum / count,
{
    assert(is_mean(mean, sum, count) <==> mean == sum / count) by (nonlinear_arith)
        requires
            0 < count,
            is_mean(mean, sum, count) <==> mean * count <= sum < (mean + 1) * count,
    ;
}

/// Where pixel `col` of row `row` stands.
proof fn lemma_row_word(wpr: int, h: int, row: int, col: int)
    requires
        0 <= row < h,
        0 <= col < 2 * wpr,
    ensures
        ({
            let i = 2 * (wpr * row) + col;
            &&& 0 <= i / 2 < wpr * h
            &&& i / 2 / wpr == row
            &&& i % 2 == col % 2
            &&& i / 2 == wpr * row + col / 2
        }),
{
    let i = 2 * (wpr * row) + col;
    assert(i / 2 == wpr * row + col / 2);
    assert((wpr * row + col / 2) / wpr == row && 0 <= wpr * row && wpr * row + wpr <= wpr * h)
        by (nonlinear_arith)
        requires
            0 <= col / 2 < wpr,
            0 <= row < h,
    ;
}

/// Destriping shifts the green of every pixel of every row by what the mean of its row lacks of the
/// mean of the frame, and red and blue by half of that towards zero, each limited to its channel.
pub proof fn law_destripe_pixels(
    words: Seq<u32>,
    w: int,
    h: int,
    row: int,
    col: int,
    mean: int,
    of_row: int,
)
    requires
        0 < w,
        0 <= row < h,
        (w / 2) * h <= words.len(),
        0 <= col < 2 * (w / 2),
        is_mean(mean, green_total(words, 0, 2 * ((w / 2) * h)), w * h),
        is_mean(
            of_row,
            green_total(words, 2 * ((w / 2) * row), 2 * ((w / 2) * row) + 2 * (w / 2)),
            w,
        ),
    ensures
        ({
            let i = 2 * ((w / 2) * row) + col;
            let (p, q) = (pixel_at(words, i), pixel_at(destriped(words, w, h), i));
            let off = mean - of_row;
            let less = if off < 0 {
                -(-off / 2)
            } else {
                off / 2
            };
            let (r, g, b) = (
                p / 2048 % 32 + less,
                p / 32 % 64 + off,
                p % 32 + less,
            );
            &&& q < 0x1_0000
            &&& q / 2048 == if r < 0 {
                0
            } else if r > 31 {
                31
            } else {
                r
            }
            &&& q / 32 % 64 == if g < 0 {
                0
            } else if g > 63 {
                63
            } else {
                g
            }
            &&& q % 32 == if b < 0 {
                0
            } else if b > 31 {
                31
            } else {
                b
            }
        }),
{
    let wpr = w / 2;
    let i = 2 * (wpr * row) + col;
    let j = i / 2;
    lemma_row_word(wpr, h, row, col);
    assert(0 < w * h && row * wpr == wpr * row && (row + 1) * wpr == wpr * row + wpr && 0 <= wpr * h)
        by (nonlinear_arith)
        requires
            0 < w,
            0 < h,
            0 <= wpr,
    ;
    lemma_offset(words, w, h, row, mean, of_row);
    let off = mean - of_row;
    assert(destriped(words, w, h)[j] == shifted_word(words[j], off));
    let (lo, hi) = (shifted_px(words[j] % 0x1_0000, off), shifted_px(words[j] / 0x1_0000, off));
    law_shift_green(words[j] % 0x1_0000, off);
    law_shift_green(words[j] / 0x1_0000, off);
    lemma_word(lo, hi);
}

/// What lies behind the frame is not touched.
pub proof fn law_destripe_rest(words: Seq<u32>, w: int, h: int)
    requires
        0 <= (w / 2) * h <= words.len(),
    ensures
        destriped(words, w, h).len() == words.len(),
        destriped(words, w, h).skip((w / 2) * h) == words.skip((w / 2) * h),
{
    assert(destriped(words, w, h).skip((w / 2) * h) =~= words.skip((w / 2) * h));
}

proof fn lemma_row_shift_exact(a: Seq<u32>, b: Seq<u32>, from: int, to: int, off: int)
    requires
        from <= to,
        forall|j: int| from <= j < to ==> b[j] == shifted_word(a[j], off),
        has_room(a, 2 * from, 2 * to, off),
    ensures
        green_sum(b, from, to) == green_sum(a, from, to) + (to - from) * (2 * off),
    decreases to - from,
{
    if from < to {
        let j = to - 1;
        lemma_row_shift_exact(a, b, from, to - 1, off);
        assert((2 * j) / 2 == j && (2 * j) % 2 == 0);
        assert((2 * j + 1) / 2 == j && (2 * j + 1) % 2 == 1);
        assert(0 <= pixel_at(a, 2 * j) / 32 % 64 + off <= 63);
        assert(0 <= pixel_at(a, 2 * j + 1) / 32 % 64 + off <= 63);
        let x = a[j];
        law_shift_green(x % 0x1_0000, off);
        law_shift_green(x / 0x1_0000, off);
        lemma_word(shifted_px(x % 0x1_0000, off), shifted_px(x / 0x1_0000, off));
        assert(word_green(b[j]) == word_green(a[j]) + 2 * off);
        assert((to - from) * (2 * off) == (to - 1 - from) * (2 * off) + 2 * off)
            by (nonlinear_arith);
    } else {
        assert((to - from) * (2 * off) == 0) by (nonlinear_arith)
            requires
                to == from,
        ;
    }
}

/// The words of a row are shifted alike.
proof fn lemma_row_words(words: Seq<u32>, w: int, h: int, row: int, off: int)
    requires
        0 < w,
        0 <= row < h,
        (w / 2) * h <= words.len(),
        off == frame_mean(words, w, h) - row_mean(words, w, row),
    ensures
        forall|j: int|
            row * (w / 2) <= j < (row + 1) * (w / 2) ==> destriped(words, w, h)[j] == shifted_word(
                words[j],
                off,
            ),
{
    let wpr = w / 2;
    assert(0 <= row * wpr && (row + 1) * wpr == row * wpr + wpr && (row + 1) * wpr <= wpr * h)
        by (nonlinear_arith)
        requires
            0 <= row < h,
            0 <= wpr,
    ;
    assert forall|j: int| row * wpr <= j < (row + 1) * wpr implies destriped(words, w, h)[j]
        == shifted_word(words[j], off) by {
        assert(j / wpr == row) by (nonlinear_arith)
            requires
                row * wpr <= j < row * wpr + wpr,
        ;
    }
}

proof fn lemma_mean_shifted(mean: int, of_row: int, s: int, t: int, wpr: int)
    requires
        is_mean(of_row, s, 2 * wpr),
        t == s + wpr * (2 * (mean - of_row)),
    ensures
        is_mean(mean, t, 2 * wpr),
{
    assert(wpr * (2 * (mean - of_row)) == mean * (2 * wpr) - of_row * (2 * wpr))
        by (nonlinear_arith);
    assert((mean + 1) * (2 * wpr) == mean * (2 * wpr) + 2 * wpr && (of_row + 1) * (2 * wpr) == of_row
        * (2 * wpr) + 2 * wpr) by (nonlinear_arith);
}

/// The green of every pixel from `from` to before `to` stays within its channel when it is shifted.
pub open spec fn has_room(words: Seq<u32>, from: int, to: int, off: int) -> bool {
    forall|i: int| from <= i < to ==> 0 <= #[trigger] pixel_at(words, i) / 32 % 64 + off <= 63
}

proof fn lemma_total_shift(words: Seq<u32>, w: int, h: int, row: int, off: int)
    requires
        0 < w,
        0 <= row < h,
        (w / 2) * h <= words.len(),
        off == frame_mean(words, w, h) - row_mean(words, w, row),
        has_room(words, 2 * (row * (w / 2)), 2 * ((row + 1) * (w / 2)), off),
    ensures
        green_total(destriped(words, w, h), 2 * (row * (w / 2)), 2 * ((row + 1) * (w / 2)))
            == green_total(words, 2 * (row * (w / 2)), 2 * ((row + 1) * (w / 2))) + (w / 2) * (2
            * off),
{
    let wpr = w / 2;
    let (from, to) = (row * wpr, (row + 1) * wpr);
    assert(to == from + wpr) by (nonlinear_arith)
        requires
            from == row * wpr,
            to == (row + 1) * wpr,
    ;
    lemma_green_total(words, from, to);
    lemma_green_total(destriped(words, w, h), from, to);
    lemma_row_words(words, w, h, row, off);
    lemma_row_shift_exact(words, destriped(words, w, h), from, to, off);
}

proof fn lemma_offset(words: Seq<u32>, w: int, h: int, row: int, mean: int, of_row: int)
    requires
        0 < w,
        0 <= row < h,
        is_mean(mean, green_total(words, 0, 2 * ((w / 2) * h)), w * h),
        is_mean(
            of_row,
            green_total(words, 2 * (row * (w / 2)), 2 * ((row + 1) * (w / 2))),
            w,
        ),
    ensures
        mean - of_row == frame_mean(words, w, h) - row_mean(words, w, row),
{
    let wpr = w / 2;
    assert(0 < w * h && 0 <= wpr * h && row * wpr <= (row + 1) * wpr) by (nonlinear_arith)
        requires
            0 < w,
            0 < h,
            0 <= wpr,
    ;
    lemma_green_total(words, 0, wpr * h);
    lemma_green_total(words, row * wpr, (row + 1) * wpr);
    lemma_mean_unique(mean, green_total(words, 0, 2 * (wpr * h)), w * h);
    lemma_mean_unique(
        of_row,
        green_total(words, 2 * (row * wpr), 2 * ((row + 1) * wpr)),
        w,
    );
}

/// A row in which no pixel reaches the end of its channel comes out with exactly the mean of the
/// frame, whichever row it is: the banding is gone. A row has `wpr` words of two pixels.
pub proof fn law_destripe_flattens(
    words: Seq<u32>,
    wpr: int,
    h: int,
    row: int,
    mean: int,
    of_row: int,
)
    requires
        0 < wpr,
        0 <= row < h,
        wpr * h <= words.len(),
        is_mean(mean, green_total(words, 0, 2 * (wpr * h)), 2 * wpr * h),
        is_mean(
            of_row,
            green_total(words, 2 * (row * wpr), 2 * ((row + 1) * wpr)),
            2 * wpr,
        ),
        has_room(words, 2 * (row * wpr), 2 * ((row + 1) * wpr), mean - of_row),
    ensures
        is_mean(
            mean,
            green_total(
                destriped(words, 2 * wpr, h),
                2 * (row * wpr),
                2 * ((row + 1) * wpr),
            ),
            2 * wpr,
        ),
{
    assert((2 * wpr) / 2 == wpr);
    lemma_offset(words, 2 * wpr, h, row, mean, of_row);
    lemma_total_shift(words, 2 * wpr, h, row, mean - of_row);
    lemma_mean_shifted(
        mean,
        of_row,
        green_total(words, 2 * (row * wpr), 2 * ((row + 1) * wpr)),
        green_total(destriped(words, 2 * wpr, h), 2 * (row * wpr), 2 * ((row + 1) * wpr)),
        wpr,
    );
}

/// The median of three pixels has the median of each channel.
pub proof fn law_median_channels(p0: u32, p1: u32, p2: u32)
    ensures
        median_px(p0, p1, p2) < 0x1_0000,
        red(median_px(p0, p1, p2)) == median(red(p0), red(p1), red(p2)),
        green(median_px(p0, p1, p2)) == median(green(p0), green(p1), green(p2)),
        blue(median_px(p0, p1, p2)) == median(blue(p0), blue(p1), blue(p2)),
{
    lemma_rgb565(
        median(red(p0), red(p1), red(p2)),
        median(green(p0), green(p1), green(p2)),
        median(blue(p0), blue(p1), blue(p2)),
    );
}

/// What lies behind the medians is not touched.
pub proof fn law_median_frame_rest(a: Seq<u32>, b: Seq<u32>, c: Seq<u32>, n: int)
    requires
        0 <= n <= a.len(),
    ensures
        median_frame(a, b, c, n).len() == a.len(),
        median_frame(a, b, c, n).skip(n) == a.skip(n),
{
    assert(median_frame(a, b, c, n).skip(n) =~= a.skip(n));
}

/// Limiting a value leaves it alone within its limits, and else gives the nearer one.
pub proof fn law_clamped(v: int, max: i32)
    requires
        0 <= max,
    ensures
        v <= 0 ==> clamped(v, max) == 0,
        v >= max ==> clamped(v, max) == max,
        0 <= v <= max ==> clamped(v, max) == v,
{
}

/// Half of an offset loses at most its last bit, and both signs are treated alike.
pub proof fn law_half(off: int)
    ensures
        half(-off) == -half(off),
        off >= 0 ==> 2 * half(off) <= off <= 2 * half(off) + 1,
{
}

/// A value is one of three, and lies between the other two.
pub open spec fn between(m: u32, a: u32, b: u32, c: u32) -> bool {
    ||| m == a && (b <= m <= c || c <= m <= b)
    ||| m == b && (a <= m <= c || c <= m <= a)
    ||| m == c && (a <= m <= b || b <= m <= a)
}

/// What `denoise_median` does: in each channel every pixel of the frame becomes the middle one of the
/// three frames' values there. What lies behind the frame is not touched.
pub proof fn law_denoise_median(
    a: &mut [u32],
    b: &[u32],
    c: &[u32],
    w: usize,
    h: usize,
    i: int,
)
    requires
        0 <= i < 2 * ((w * h) / 2),
        (w * h) / 2 <= old(a)@.len(),
        (w * h) / 2 <= b@.len(),
        (w * h) / 2 <= c@.len(),
        call_ensures(denoise_median, (a, b, c, w, h), ()),
    ensures
        final(a)@.len() == old(a)@.len(),
        final(a)@.skip((w * h) / 2) == old(a)@.skip((w * h) / 2),
        ({
            let m = pixel_at(final(a)@, i);
            let (p, q, r) = (pixel_at(old(a)@, i), pixel_at(b@, i), pixel_at(c@, i));
            &&& m < 0x1_0000
            &&& between(m / 2048 % 32, p / 2048 % 32, q / 2048 % 32, r / 2048 % 32)
            &&& between(m / 32 % 64, p / 32 % 64, q / 32 % 64, r / 32 % 64)
            &&& between(m % 32, p % 32, q % 32, r % 32)
        }),
{
    let n = (w * h) / 2;
    law_median_frame_pixels(old(a)@, b@, c@, n, i);
    law_median_frame_rest(old(a)@, b@, c@, n);
    law_median_channels(pixel_at(old(a)@, i), pixel_at(b@, i), pixel_at(c@, i));
}

/// What `destripe` does, at every pixel of every row: its green is shifted by what the mean of its
/// row lacks of the mean of the frame, red and blue by half of that, each limited to its channel.
pub proof fn law_destripe(
    words: &mut [u32],
    w: usize,
    h: usize,
    row: int,
    col: int,
    mean: int,
    of_row: int,
)
    requires
        0 < w,
        0 <= row < h,
        (w / 2) * h <= old(words)@.len(),
        0 <= col < 2 * (w / 2),
        is_mean(mean, green_total(old(words)@, 0, 2 * ((w / 2) * h)), w * h),
        is_mean(
            of_row,
            green_total(
                old(words)@,
                2 * ((w / 2) * row),
                2 * ((w / 2) * row) + 2 * (w / 2),
            ),
            w as int,
        ),
        call_ensures(destripe, (words, w, h), ()),
    ensures
        ({
            let i = 2 * ((w / 2) * row) + col;
            let (p, q) = (pixel_at(old(words)@, i), pixel_at(final(words)@, i));
            let off = mean - of_row;
            let less = if off < 0 {
                -(-off / 2)
            } else {
                off / 2
            };
            &&& q < 0x1_0000
            &&& q / 2048 == limited(p / 2048 % 32 + less, 31)
            &&& q / 32 % 64 == limited(p / 32 % 64 + off, 63)
            &&& q % 32 == limited(p % 32 + less, 31)
        }),
        final(words)@.len() == old(words)@.len(),
        final(words)@.skip((w / 2) * h) == old(words)@.skip((w / 2) * h),
{
    assert(0 <= (w / 2) * h) by (nonlinear_arith);
    law_destripe_pixels(old(words)@, w as int, h as int, row, col, mean, of_row);
    law_destripe_rest(old(words)@, w as int, h as int);
}

/// A value, or the end of `0..=max` that is nearer.
pub open spec fn limited(v: int, max: int) -> int {
    if v < 0 {
        0
    } else if v > max {
        max
    } else {
        v
    }
}

/// What `denoise` does: what `denoise_median` does, and then what `destripe` does to that.
pub proof fn law_denoise(
    a: &mut [u32],
    b: &[u32],
    c: &[u32],
    w: usize,
    h: usize,
    mid: Seq<u32>,
    row: int,
    col: int,
    mean: int,
    of_row: int,
)
    requires
        0 < w,
        0 <= row < h,
        (w / 2) * h <= old(a)@.len(),
        (w * h) / 2 <= old(a)@.len(),
        (w * h) / 2 <= b@.len(),
        (w * h) / 2 <= c@.len(),
        0 <= col < 2 * (w / 2),
        call_ensures(denoise, (a, b, c, w, h), ()),
        mid == median_frame(old(a)@, b@, c@, (w * h) / 2),
        is_mean(mean, green_total(mid, 0, 2 * ((w / 2) * h)), w * h),
        is_mean(
            of_row,
            green_total(mid, 2 * ((w / 2) * row), 2 * ((w / 2) * row) + 2 * (w / 2)),
            w as int,
        ),
    ensures
        ({
            let i = 2 * ((w / 2) * row) + col;
            let q = pixel_at(final(a)@, i);
            let (p0, p1, p2) = (pixel_at(old(a)@, i), pixel_at(b@, i), pixel_at(c@, i));
            let g = pixel_at(mid, i) / 32 % 64;
            &&& between(g, p0 / 32 % 64, p1 / 32 % 64, p2 / 32 % 64)
            &&& q / 32 % 64 == limited(g + mean - of_row, 63)
        }),
        final(a)@ == destriped(mid, w as int, h as int),
{
    let n = (w * h) / 2;
    let i = 2 * ((w / 2) * row) + col;
    lemma_row_word((w / 2) as int, h as int, row, col);
    assert((w / 2) * h <= n) by (nonlinear_arith)
        requires
            n == (w * h) / 2,
            0 <= w,
            0 <= h,
    ;
    assert(0 <= i < 2 * n);
    law_destripe_pixels(mid, w as int, h as int, row, col, mean, of_row);
    law_median_frame_pixels(old(a)@, b@, c@, n, i);
    law_median_channels(pixel_at(old(a)@, i), pixel_at(b@, i), pixel_at(c@, i));
}

} // verus!
