//! Colour conversion and the entropy-coded scan.

use vstd::prelude::*;

use super::bits::{entropy_bytes, BitW};
use super::block::{
    block_bits, category, codable, code_block, lemma_bit_length_at_most, magnitude, quantized, short_codes,
};
use super::dct::{bounded, column, column_pass, fdct, fdct_of, lemma_line_bound, row};
use super::tables::{
    chroma_ac, chroma_dc, chroma_steps, luma_ac, luma_dc, luma_steps, AC_C, AC_L, DC_C, DC_L,
    QUANT_C, QUANT_L,
};
use crate::bytes::splice;
use crate::pixel::{blue, green, holds_frame, pixel, pixel_at, red};

verus! {

/// An RGB565 frame: its words, its width and its height.
pub struct Image {
    pub words: Seq<u32>,
    pub w: int,
    pub h: int,
}

/// RGB888 of a pixel: the top bits of each channel repeated in its low bits.
pub open spec fn rgb888(px: u32) -> (int, int, int) {
    (
        red(px) * 8 + red(px) / 4,
        green(px) * 4 + green(px) / 16,
        blue(px) * 8 + blue(px) / 4,
    )
}

pub open spec fn clamp_index(x: int, size: int) -> int {
    if x < size {
        x
    } else {
        size - 1
    }
}

impl Image {
    /// RGB888 at `(x, y)`. Beyond the right and bottom edges the last column and row repeat.
    pub open spec fn rgb(self, x: int, y: int) -> (int, int, int) {
        rgb888(pixel_at(self.words, clamp_index(y, self.h) * self.w + clamp_index(x, self.w)))
    }

    /// Mean colour of the four pixels from `(x, y)` on.
    pub open spec fn rgb_mean(self, x: int, y: int) -> (int, int, int) {
        let (a, b, c, d) = (
            self.rgb(x, y),
            self.rgb(x + 1, y),
            self.rgb(x, y + 1),
            self.rgb(x + 1, y + 1),
        );
        (
            (a.0 + b.0 + c.0 + d.0) / 4,
            (a.1 + b.1 + c.1 + d.1) / 4,
            (a.2 + b.2 + c.2 + d.2) / 4,
        )
    }

    /// Level-shifted luma samples of the 8x8 block at `(x, y)`.
    pub open spec fn luma_block(self, x: int, y: int) -> Seq<i32> {
        Seq::new(64, |i: int| luma(self.rgb(x + i % 8, y + i / 8)) as i32)
    }

    /// Level-shifted Cb samples of the 16x16 area at `(x, y)`.
    pub open spec fn cb_block(self, x: int, y: int) -> Seq<i32> {
        Seq::new(64, |i: int| chroma_b(self.rgb_mean(x + 2 * (i % 8), y + 2 * (i / 8))) as i32)
    }

    /// Level-shifted Cr samples of the 16x16 area at `(x, y)`.
    pub open spec fn cr_block(self, x: int, y: int) -> Seq<i32> {
        Seq::new(64, |i: int| chroma_r(self.rgb_mean(x + 2 * (i % 8), y + 2 * (i / 8))) as i32)
    }

    /// Number of MCUs in a row.
    pub open spec fn mcus_per_row(self) -> int {
        (self.w + 15) / 16
    }

    /// Left edge of the `m`-th MCU of a segment.
    #[verifier::opaque]
    pub open spec fn mcu_x(self, m: int) -> int {
        16 * (m % self.mcus_per_row())
    }

    /// Top edge of the `m`-th MCU of a segment that begins with MCU row `top`.
    #[verifier::opaque]
    pub open spec fn mcu_y(self, top: int, m: int) -> int {
        16 * (top + m / self.mcus_per_row())
    }

    /// The `t`-th quantized luma block of a segment; each MCU has four.
    #[verifier::opaque]
    pub open spec fn luma_q(self, top: int, t: int) -> Seq<int> {
        quantized(
            fdct_of(
                self.luma_block(
                    self.mcu_x(t / 4) + 8 * (t % 2),
                    self.mcu_y(top, t / 4) + 8 * (t % 4 / 2),
                ),
            ),
            reciprocals_of(luma_steps()),
        )
    }

    /// The quantized Cb block of the `m`-th MCU of a segment.
    #[verifier::opaque]
    pub open spec fn cb_q(self, top: int, m: int) -> Seq<int> {
        quantized(
            fdct_of(self.cb_block(self.mcu_x(m), self.mcu_y(top, m))),
            reciprocals_of(chroma_steps()),
        )
    }

    /// The quantized Cr block of the `m`-th MCU of a segment.
    #[verifier::opaque]
    pub open spec fn cr_q(self, top: int, m: int) -> Seq<int> {
        quantized(
            fdct_of(self.cr_block(self.mcu_x(m), self.mcu_y(top, m))),
            reciprocals_of(chroma_steps()),
        )
    }

    /// DC predictor of the `t`-th luma block: the DC coefficient before it, at first 0.
    pub open spec fn luma_pred(self, top: int, t: int) -> int {
        if t == 0 {
            0
        } else {
            self.luma_q(top, t - 1)[0]
        }
    }

    pub open spec fn cb_pred(self, top: int, m: int) -> int {
        if m == 0 {
            0
        } else {
            self.cb_q(top, m - 1)[0]
        }
    }

    pub open spec fn cr_pred(self, top: int, m: int) -> int {
        if m == 0 {
            0
        } else {
            self.cr_q(top, m - 1)[0]
        }
    }

    /// Bits of the `t`-th luma block of a segment.
    #[verifier::opaque]
    pub open spec fn luma_bits(self, top: int, t: int) -> Seq<bool> {
        block_bits(self.luma_q(top, t), self.luma_pred(top, t), luma_dc(), luma_ac())
    }

    #[verifier::opaque]
    pub open spec fn cb_bits(self, top: int, m: int) -> Seq<bool> {
        block_bits(self.cb_q(top, m), self.cb_pred(top, m), chroma_dc(), chroma_ac())
    }

    #[verifier::opaque]
    pub open spec fn cr_bits(self, top: int, m: int) -> Seq<bool> {
        block_bits(self.cr_q(top, m), self.cr_pred(top, m), chroma_dc(), chroma_ac())
    }

    /// Bits of the `m`-th MCU of a segment: four luma blocks, one Cb and one Cr block.
    pub open spec fn mcu_bits(self, top: int, m: int) -> Seq<bool> {
        self.luma_bits(top, 4 * m) + self.luma_bits(top, 4 * m + 1) + self.luma_bits(
            top,
            4 * m + 2,
        ) + self.luma_bits(top, 4 * m + 3) + self.cb_bits(top, m) + self.cr_bits(top, m)
    }

    /// Bits of the first `n` MCUs of a segment.
    pub open spec fn segment_bits(self, top: int, n: nat) -> Seq<bool>
        decreases n,
    {
        if n == 0 {
            Seq::empty()
        } else {
            self.segment_bits(top, (n - 1) as nat) + self.mcu_bits(top, n - 1)
        }
    }

    /// Number of MCUs in the MCU rows from `top` to before `end`.
    pub open spec fn mcu_count(self, top: int, end: int) -> nat {
        if top < end {
            ((end - top) * self.mcus_per_row()) as nat
        } else {
            0
        }
    }

    /// The entropy-coded bytes of the MCU rows from `top` to before `end`.
    pub open spec fn scan_bytes(self, top: int, end: int) -> Seq<u8> {
        entropy_bytes(self.segment_bits(top, self.mcu_count(top, end)))
    }
}

/// Y - 128.
pub open spec fn luma(c: (int, int, int)) -> int {
    (77 * c.0 + 150 * c.1 + 29 * c.2) / 256 - 128
}

/// Cb - 128.
pub open spec fn chroma_b(c: (int, int, int)) -> int {
    (-43 * c.0 - 85 * c.1 + 128 * c.2) / 256
}

/// Cr - 128.
pub open spec fn chroma_r(c: (int, int, int)) -> int {
    (128 * c.0 - 107 * c.1 - 21 * c.2) / 256
}

/// `round(2^16 / step)` for each quantization step.
pub open spec fn reciprocals_of(steps: Seq<u8>) -> Seq<i32> {
    Seq::new(64, |i: int| ((65536 + steps[i] / 2) / (steps[i] as int)) as i32)
}

/// The frame behind a slice.
pub open spec fn image(fb: Seq<u32>, w: usize, h: usize) -> Image {
    Image { words: fb, w: w as int, h: h as int }
}

/// RGB888 of source pixel `(x, y)`, clamped to the image.
fn rgb(fb: &[u32], w: usize, h: usize, x: usize, y: usize) -> (c: (i32, i32, i32))
    requires
        w > 0,
        h > 0,
        holds_frame(fb@, w as int, h as int),
    ensures
        (c.0 as int, c.1 as int, c.2 as int) == image(fb@, w, h).rgb(x as int, y as int),
        0 <= c.0 <= 255,
        0 <= c.1 <= 255,
        0 <= c.2 <= 255,
{
    let xx: usize = if x < w {
        x
    } else {
        w - 1
    };
    let yy: usize = if y < h {
        y
    } else {
        h - 1
    };
    assert(0 <= yy * w && yy * w + xx < w * h) by (nonlinear_arith)
        requires
            0 <= xx < w,
            0 <= yy < h,
    ;
    let i: usize = yy * w + xx;
    let px: u32 = pixel(fb, i);
    let r5: u32 = px / 2048 % 32;
    let g6: u32 = px / 32 % 64;
    let b5: u32 = px % 32;
    ((r5 * 8 + r5 / 4) as i32, (g6 * 4 + g6 / 16) as i32, (b5 * 8 + b5 / 4) as i32)
}

/// Level-shifted luma samples of the 8x8 block at `(x0, y0)`.
fn luma_samples(fb: &[u32], w: usize, h: usize, x0: usize, y0: usize) -> (blk: [i32; 64])
    requires
        w > 0,
        h > 0,
        holds_frame(fb@, w as int, h as int),
        x0 + 7 <= usize::MAX,
        y0 + 7 <= usize::MAX,
    ensures
        blk@ == image(fb@, w, h).luma_block(x0 as int, y0 as int),
        bounded(blk@, 128),
{
    let ghost img = image(fb@, w, h);
    let mut blk: [i32; 64] = [0; 64];
    let mut i: usize = 0;
    while i < 64
        invariant
            i <= 64,
            w > 0,
            h > 0,
            holds_frame(fb@, w as int, h as int),
            x0 + 7 <= usize::MAX,
            y0 + 7 <= usize::MAX,
            img == image(fb@, w, h),
            forall|j: int|
                0 <= j < i ==> #[trigger] blk@[j] == luma(img.rgb(x0 + j % 8, y0 + j / 8))
                    && -128 <= blk@[j] <= 128,
        decreases 64 - i,
    {
        let (rr, gg, bb) = rgb(fb, w, h, x0 + i % 8, y0 + i / 8);
        blk[i] = (77 * rr + 150 * gg + 29 * bb) / 256 - 128;
        i = i + 1;
    }
    assert(blk@ =~= img.luma_block(x0 as int, y0 as int));
    blk
}

/// Mean colour of the four pixels from `(x, y)` on.
fn rgb_mean(fb: &[u32], w: usize, h: usize, x: usize, y: usize) -> (c: (i32, i32, i32))
    requires
        w > 0,
        h > 0,
        holds_frame(fb@, w as int, h as int),
        x + 1 <= usize::MAX,
        y + 1 <= usize::MAX,
    ensures
        (c.0 as int, c.1 as int, c.2 as int) == image(fb@, w, h).rgb_mean(x as int, y as int),
        0 <= c.0 <= 255,
        0 <= c.1 <= 255,
        0 <= c.2 <= 255,
{
    let a = rgb(fb, w, h, x, y);
    let b = rgb(fb, w, h, x + 1, y);
    let c = rgb(fb, w, h, x, y + 1);
    let d = rgb(fb, w, h, x + 1, y + 1);
    (
        (a.0 + b.0 + c.0 + d.0) / 4,
        (a.1 + b.1 + c.1 + d.1) / 4,
        (a.2 + b.2 + c.2 + d.2) / 4,
    )
}

/// Level-shifted Cb and Cr samples of the 16x16 area at `(x0, y0)`, each from 2x2 means.
#[verifier::rlimit(40)]
fn chroma_samples(fb: &[u32], w: usize, h: usize, x0: usize, y0: usize) -> (r: (
    [i32; 64],
    [i32; 64],
))
    requires
        w > 0,
        h > 0,
        holds_frame(fb@, w as int, h as int),
        x0 + 15 <= usize::MAX,
        y0 + 15 <= usize::MAX,
    ensures
        r.0@ == image(fb@, w, h).cb_block(x0 as int, y0 as int),
        r.1@ == image(fb@, w, h).cr_block(x0 as int, y0 as int),
        bounded(r.0@, 128),
        bounded(r.1@, 128),
{
    let ghost img = image(fb@, w, h);
    let mut cb: [i32; 64] = [0; 64];
    let mut cr: [i32; 64] = [0; 64];
    let mut i: usize = 0;
    while i < 64
        invariant
            i <= 64,
            w > 0,
            h > 0,
            holds_frame(fb@, w as int, h as int),
            x0 + 15 <= usize::MAX,
            y0 + 15 <= usize::MAX,
            img == image(fb@, w, h),
            forall|j: int|
                0 <= j < i ==> #[trigger] cb@[j] == chroma_b(
                    img.rgb_mean(x0 + 2 * (j % 8), y0 + 2 * (j / 8)),
                ) && -128 <= cb@[j] <= 128,
            forall|j: int|
                0 <= j < i ==> #[trigger] cr@[j] == chroma_r(
                    img.rgb_mean(x0 + 2 * (j % 8), y0 + 2 * (j / 8)),
                ) && -128 <= cr@[j] <= 128,
        decreases 64 - i,
    {
        let (rr, gg, bb) = rgb_mean(fb, w, h, x0 + 2 * (i % 8), y0 + 2 * (i / 8));
        let u: i32 = -43 * rr - 85 * gg + 128 * bb;
        let v: i32 = 128 * rr - 107 * gg - 21 * bb;
        assert(u >> 8u32 == u / 256 && v >> 8u32 == v / 256) by (bit_vector);
        cb[i] = u >> 8u32;
        cr[i] = v >> 8u32;
        i = i + 1;
    }
    assert(cb@ =~= img.cb_block(x0 as int, y0 as int));
    assert(cr@ =~= img.cr_block(x0 as int, y0 as int));
    (cb, cr)
}

/// Reciprocals of quantization steps, which turn a division per coefficient into a
/// multiplication and a shift.
fn reciprocals_for(steps: &[u8; 64]) -> (recip: [i32; 64])
    requires
        forall|i: int| 0 <= i < 64 ==> #[trigger] steps@[i] >= 4,
    ensures
        recip@ == reciprocals_of(steps@),
        forall|i: int| 0 <= i < 64 ==> 0 <= #[trigger] recip@[i] <= 16384,
{
    let mut recip: [i32; 64] = [0; 64];
    let mut i: usize = 0;
    while i < 64
        invariant
            i <= 64,
            forall|j: int| 0 <= j < 64 ==> #[trigger] steps@[j] >= 4,
            forall|j: int|
                0 <= j < i ==> #[trigger] recip@[j] == (65536 + steps@[j] / 2) / (steps@[j] as int)
                    && 0 <= recip@[j] <= 16384,
        decreases 64 - i,
    {
        let q: i32 = steps[i] as i32;
        assert(steps@[i as int] >= 4);
        let r: i32 = (65536 + q / 2) / q;
        assert(0 <= (65536 + q / 2) / (q as int) <= 16384) by (nonlinear_arith)
            requires
                4 <= q,
        ;
        recip[i] = r;
        i = i + 1;
    }
    assert(recip@ =~= reciprocals_of(steps@));
    recip
}

/// 8-bit samples give coefficients of at most 8192 in magnitude.
pub proof fn lemma_coefficients(b: Seq<i32>)
    requires
        b.len() == 64,
        bounded(b, 128),
    ensures
        fdct_of(b).len() == 64,
        bounded(fdct_of(b), 8192),
{
    reveal(fdct_of);
    let mid = column_pass(b);
    assert(bounded(mid, 4096)) by {
        assert forall|i: int| 0 <= i < 64 implies -4096 <= #[trigger] mid[i] <= 4096 by {
            let d = column(b, i % 8);
            assert forall|j: int| 0 <= j < 8 implies -128 <= #[trigger] d[j] <= 128 by {
                assert(d[j] == b[8 * j + i % 8]);
            }
            lemma_line_bound(i / 8, d, 128);
        }
    }
    assert forall|i: int| 0 <= i < 64 implies -8192 <= #[trigger] fdct_of(b)[i] <= 8192 by {
        let d = row(mid, i / 8);
        assert forall|j: int| 0 <= j < 8 implies -4096 <= #[trigger] d[j] <= 4096 by {
            assert(d[j] == mid[8 * (i / 8) + j]);
        }
        lemma_line_bound(i % 8, d, 4096);
    }
}

/// Quantized values that code tables with 12 DC and 10 AC categories always cover.
pub open spec fn small(q: Seq<int>) -> bool {
    &&& q.len() == 64
    &&& forall|i: int| 0 <= i < 64 ==> -256 <= #[trigger] q[i] <= 256
}

/// Coefficients of 8-bit samples stay small when quantized in steps of at least 4.
pub proof fn lemma_quantized_small(coef: Seq<i32>, recip: Seq<i32>)
    requires
        coef.len() == 64,
        recip.len() == 64,
        bounded(coef, 8192),
        forall|i: int| 0 <= i < 64 ==> 0 <= #[trigger] recip[i] <= 16384,
    ensures
        small(quantized(coef, recip)),
{
    assert forall|i: int| 0 <= i < 64 implies -256 <= #[trigger] quantized(coef, recip)[i]
        <= 256 by {
        let a = magnitude(coef[i] as int);
        let r = recip[i] as int;
        assert(-8192 <= coef[i] <= 8192);
        assert(0 <= a * r <= 8192 * 16384) by (nonlinear_arith)
            requires
                0 <= a <= 8192,
                0 <= r <= 16384,
        ;
    }
}

/// Small values have codes.
pub proof fn lemma_small_codable(q: Seq<int>, prev: int)
    requires
        small(q),
        -256 <= prev <= 256,
    ensures
        codable(q, prev),
{
    vstd::arithmetic::power2::lemma2_to64();
    assert(-256 <= q[0] <= 256);
    lemma_bit_length_at_most(magnitude(q[0] - prev), 11);
    assert forall|i: int| 1 <= i < 64 implies category(#[trigger] q[i]) <= 10 by {
        lemma_bit_length_at_most(magnitude(q[i]), 10);
    }
}

/// Transform a block of samples and append its code.
fn put_block(
    blk: &mut [i32; 64],
    recip: &[i32; 64],
    dc: &[(u16, u8); 12],
    ac: &[(u16, u8); 251],
    prev_dc: &mut i32,
    bw: &mut BitW,
)
    requires
        bounded(old(blk)@, 128),
        forall|i: int| 0 <= i < 64 ==> 0 <= #[trigger] recip@[i] <= 16384,
        short_codes(dc@),
        short_codes(ac@),
        -256 <= *old(prev_dc) <= 256,
        old(bw).wf(),
    ensures
        final(bw).wf(),
        final(bw).bits@ == old(bw).bits@ + block_bits(
            quantized(fdct_of(old(blk)@), recip@),
            *old(prev_dc) as int,
            dc@,
            ac@,
        ),
        final(bw).base == old(bw).base,
        final(final(bw).buf)@ == final(old(bw).buf)@,
        *final(prev_dc) == quantized(fdct_of(old(blk)@), recip@)[0],
        -256 <= *final(prev_dc) <= 256,
{
    let ghost samples = blk@;
    fdct(blk);
    proof {
        lemma_coefficients(samples);
        lemma_quantized_small(blk@, recip@);
        lemma_small_codable(quantized(blk@, recip@), *prev_dc as int);
        assert(-256 <= quantized(blk@, recip@)[0] <= 256);
        assert forall|i: int| 0 <= i < 64 implies #[trigger] blk@[i] != i32::MIN by {
            assert(-8192 <= blk@[i]);
        }
    }
    code_block(blk, recip, dc, ac, prev_dc, bw);
}

fn luma_tables() -> (t: (&'static [(u16, u8); 12], &'static [(u16, u8); 251]))
    ensures
        t.0@ == luma_dc(),
        t.1@ == luma_ac(),
        short_codes(t.0@),
        short_codes(t.1@),
{
    reveal(luma_dc);
    reveal(luma_ac);
    (&DC_L, &AC_L)
}

fn chroma_tables() -> (t: (&'static [(u16, u8); 12], &'static [(u16, u8); 251]))
    ensures
        t.0@ == chroma_dc(),
        t.1@ == chroma_ac(),
        short_codes(t.0@),
        short_codes(t.1@),
{
    reveal(chroma_dc);
    reveal(chroma_ac);
    (&DC_C, &AC_C)
}

/// Transform a block of luma samples and append its code.
fn put_luma_block(blk: &mut [i32; 64], recip: &[i32; 64], prev_dc: &mut i32, bw: &mut BitW)
    requires
        bounded(old(blk)@, 128),
        forall|i: int| 0 <= i < 64 ==> 0 <= #[trigger] recip@[i] <= 16384,
        -256 <= *old(prev_dc) <= 256,
        old(bw).wf(),
    ensures
        final(bw).wf(),
        final(bw).bits@ == old(bw).bits@ + block_bits(
            quantized(fdct_of(old(blk)@), recip@),
            *old(prev_dc) as int,
            luma_dc(),
            luma_ac(),
        ),
        final(bw).base == old(bw).base,
        final(final(bw).buf)@ == final(old(bw).buf)@,
        *final(prev_dc) == quantized(fdct_of(old(blk)@), recip@)[0],
        -256 <= *final(prev_dc) <= 256,
{
    let (dc, ac) = luma_tables();
    put_block(blk, recip, dc, ac, prev_dc, bw);
}

/// Transform a block of chroma samples and append its code.
fn put_chroma_block(blk: &mut [i32; 64], recip: &[i32; 64], prev_dc: &mut i32, bw: &mut BitW)
    requires
        bounded(old(blk)@, 128),
        forall|i: int| 0 <= i < 64 ==> 0 <= #[trigger] recip@[i] <= 16384,
        -256 <= *old(prev_dc) <= 256,
        old(bw).wf(),
    ensures
        final(bw).wf(),
        final(bw).bits@ == old(bw).bits@ + block_bits(
            quantized(fdct_of(old(blk)@), recip@),
            *old(prev_dc) as int,
            chroma_dc(),
            chroma_ac(),
        ),
        final(bw).base == old(bw).base,
        final(final(bw).buf)@ == final(old(bw).buf)@,
        *final(prev_dc) == quantized(fdct_of(old(blk)@), recip@)[0],
        -256 <= *final(prev_dc) <= 256,
{
    let (dc, ac) = chroma_tables();
    put_block(blk, recip, dc, ac, prev_dc, bw);
}

/// Reciprocals of the luma and chroma quantization steps.
fn reciprocal_tables() -> (r: ([i32; 64], [i32; 64]))
    ensures
        r.0@ == reciprocals_of(luma_steps()),
        r.1@ == reciprocals_of(chroma_steps()),
        forall|i: int| 0 <= i < 64 ==> 0 <= #[trigger] r.0@[i] <= 16384,
        forall|i: int| 0 <= i < 64 ==> 0 <= #[trigger] r.1@[i] <= 16384,
{
    reveal(luma_steps);
    reveal(chroma_steps);
    (reciprocals_for(&QUANT_L), reciprocals_for(&QUANT_C))
}

/// DC predictors of the three components.
struct Preds {
    y: i32,
    cb: i32,
    cr: i32,
}

impl Preds {
    /// The predictors are those that the `m`-th MCU of a segment starts with.
    spec fn before_mcu(self, img: Image, top: int, m: int) -> bool {
        &&& self.y == img.luma_pred(top, 4 * m)
        &&& self.cb == img.cb_pred(top, m)
        &&& self.cr == img.cr_pred(top, m)
        &&& -256 <= self.y <= 256
        &&& -256 <= self.cb <= 256
        &&& -256 <= self.cr <= 256
    }
}

/// Append luma block `b` of the `m`-th MCU, which lies at `(x0, y0)`.
fn put_luma(
    fb: &[u32],
    w: usize,
    h: usize,
    x0: usize,
    y0: usize,
    b: usize,
    recip: &[i32; 64],
    prev: &mut i32,
    bw: &mut BitW,
    Ghost(top): Ghost<int>,
    Ghost(m): Ghost<int>,
)
    requires
        w > 0,
        h > 0,
        holds_frame(fb@, w as int, h as int),
        x0 + 15 <= usize::MAX,
        y0 + 15 <= usize::MAX,
        b < 4,
        m >= 0,
        x0 == image(fb@, w, h).mcu_x(m),
        y0 == image(fb@, w, h).mcu_y(top, m),
        recip@ == reciprocals_of(luma_steps()),
        forall|i: int| 0 <= i < 64 ==> 0 <= #[trigger] recip@[i] <= 16384,
        *old(prev) == image(fb@, w, h).luma_pred(top, 4 * m + b),
        -256 <= *old(prev) <= 256,
        old(bw).wf(),
    ensures
        final(bw).wf(),
        final(bw).bits@ == old(bw).bits@ + image(fb@, w, h).luma_bits(top, 4 * m + b),
        final(bw).base == old(bw).base,
        final(final(bw).buf)@ == final(old(bw).buf)@,
        *final(prev) == image(fb@, w, h).luma_pred(top, 4 * m + b + 1),
        -256 <= *final(prev) <= 256,
{
    let mut blk = luma_samples(fb, w, h, x0 + 8 * (b % 2), y0 + 8 * (b / 2));
    proof {
        reveal(Image::luma_q);
        reveal(Image::luma_bits);
        let t = 4 * m + b;
        assert(t / 4 == m && t % 2 == b % 2 && t % 4 / 2 == b / 2);
    }
    put_luma_block(&mut blk, recip, prev, bw);
}

/// Append the four luma blocks of the `m`-th MCU, which lies at `(x0, y0)`.
fn put_lumas(
    fb: &[u32],
    w: usize,
    h: usize,
    x0: usize,
    y0: usize,
    recip: &[i32; 64],
    prev: &mut i32,
    bw: &mut BitW,
    Ghost(top): Ghost<int>,
    Ghost(m): Ghost<int>,
)
    requires
        w > 0,
        h > 0,
        holds_frame(fb@, w as int, h as int),
        x0 + 15 <= usize::MAX,
        y0 + 15 <= usize::MAX,
        m >= 0,
        x0 == image(fb@, w, h).mcu_x(m),
        y0 == image(fb@, w, h).mcu_y(top, m),
        recip@ == reciprocals_of(luma_steps()),
        forall|i: int| 0 <= i < 64 ==> 0 <= #[trigger] recip@[i] <= 16384,
        *old(prev) == image(fb@, w, h).luma_pred(top, 4 * m),
        -256 <= *old(prev) <= 256,
        old(bw).wf(),
    ensures
        final(bw).wf(),
        final(bw).bits@ == old(bw).bits@ + image(fb@, w, h).luma_bits(top, 4 * m) + image(
            fb@,
            w,
            h,
        ).luma_bits(top, 4 * m + 1) + image(fb@, w, h).luma_bits(top, 4 * m + 2) + image(
            fb@,
            w,
            h,
        ).luma_bits(top, 4 * m + 3),
        final(bw).base == old(bw).base,
        final(final(bw).buf)@ == final(old(bw).buf)@,
        *final(prev) == image(fb@, w, h).luma_pred(top, 4 * (m + 1)),
        -256 <= *final(prev) <= 256,
{
    put_luma(fb, w, h, x0, y0, 0, recip, prev, bw, Ghost(top), Ghost(m));
    put_luma(fb, w, h, x0, y0, 1, recip, prev, bw, Ghost(top), Ghost(m));
    put_luma(fb, w, h, x0, y0, 2, recip, prev, bw, Ghost(top), Ghost(m));
    put_luma(fb, w, h, x0, y0, 3, recip, prev, bw, Ghost(top), Ghost(m));
}

/// Append one MCU.
fn put_mcu(
    fb: &[u32],
    w: usize,
    h: usize,
    x0: usize,
    y0: usize,
    recip_l: &[i32; 64],
    recip_c: &[i32; 64],
    preds: &mut Preds,
    bw: &mut BitW,
    Ghost(top): Ghost<int>,
    Ghost(m): Ghost<int>,
)
    requires
        w > 0,
        h > 0,
        holds_frame(fb@, w as int, h as int),
        x0 + 15 <= usize::MAX,
        y0 + 15 <= usize::MAX,
        m >= 0,
        x0 == image(fb@, w, h).mcu_x(m),
        y0 == image(fb@, w, h).mcu_y(top, m),
        recip_l@ == reciprocals_of(luma_steps()),
        recip_c@ == reciprocals_of(chroma_steps()),
        forall|i: int| 0 <= i < 64 ==> 0 <= #[trigger] recip_l@[i] <= 16384,
        forall|i: int| 0 <= i < 64 ==> 0 <= #[trigger] recip_c@[i] <= 16384,
        old(preds).before_mcu(image(fb@, w, h), top, m),
        old(bw).wf(),
    ensures
        final(bw).wf(),
        final(bw).bits@ == old(bw).bits@ + image(fb@, w, h).mcu_bits(top, m),
        final(bw).base == old(bw).base,
        final(final(bw).buf)@ == final(old(bw).buf)@,
        final(preds).before_mcu(image(fb@, w, h), top, m + 1),
{
    let ghost img = image(fb@, w, h);
    let ghost before = bw.bits@;
    put_lumas(fb, w, h, x0, y0, recip_l, &mut preds.y, bw, Ghost(top), Ghost(m));
    let (mut cb, mut cr) = chroma_samples(fb, w, h, x0, y0);
    proof {
        reveal(Image::cb_q);
        reveal(Image::cr_q);
        reveal(Image::cb_bits);
        reveal(Image::cr_bits);
    }
    put_chroma_block(&mut cb, recip_c, &mut preds.cb, bw);
    put_chroma_block(&mut cr, recip_c, &mut preds.cr, bw);
    assert(bw.bits@ =~= before + img.mcu_bits(top, m));
}

/// Entropy-code the MCU rows from `mcy0` to before `mcy1` of the `w` x `h` RGB565 frame `fb` into
/// `out`, from its start. The DC predictors start at 0, so the output is a self-contained restart
/// segment; it ends on a byte boundary. Returns its length, or `None` if `out` is too small.
pub fn encode_segment(
    fb: &[u32],
    w: usize,
    h: usize,
    mcy0: usize,
    mcy1: usize,
    out: &mut [u8],
) -> (len: Option<usize>)
    requires
        w + 15 <= usize::MAX,
        mcy0 < mcy1 && w > 0 ==> h > 0 && 16 * mcy1 <= usize::MAX + 1 && holds_frame(
            fb@,
            w as int,
            h as int,
        ),
    ensures
        final(out)@ == splice(
            old(out)@,
            0,
            image(fb@, w, h).scan_bytes(mcy0 as int, mcy1 as int),
        ),
        len == if image(fb@, w, h).scan_bytes(mcy0 as int, mcy1 as int).len() <= old(out)@.len() {
            Some(image(fb@, w, h).scan_bytes(mcy0 as int, mcy1 as int).len() as usize)
        } else {
            None::<usize>
        },
{
    let ghost img = image(fb@, w, h);
    let ghost top = mcy0 as int;
    let ghost out0 = out@;
    let ghost out1 = final(out)@;
    let cap: usize = out.len();
    let mut bw = BitW::new(out);
    let mut preds = Preds { y: 0, cb: 0, cr: 0 };
    let (recip_l, recip_c) = reciprocal_tables();
    let mcx: usize = (w + 15) / 16;
    let mut my: usize = mcy0;
    let ghost mut m: nat = 0;
    while my < mcy1
        invariant
            w + 15 <= usize::MAX,
            mcy0 < mcy1 && w > 0 ==> h > 0 && 16 * mcy1 <= usize::MAX + 1 && holds_frame(
                fb@,
                w as int,
                h as int,
            ),
            mcx == (w + 15) / 16,
            img == image(fb@, w, h),
            top == mcy0,
            mcy0 <= my,
            my <= mcy1 || my == mcy0,
            m == (my - mcy0) * mcx,
            recip_l@ == reciprocals_of(luma_steps()),
            recip_c@ == reciprocals_of(chroma_steps()),
            forall|i: int| 0 <= i < 64 ==> 0 <= #[trigger] recip_l@[i] <= 16384,
            forall|i: int| 0 <= i < 64 ==> 0 <= #[trigger] recip_c@[i] <= 16384,
            preds.before_mcu(img, top, m as int),
            bw.wf(),
            bw.bits@ == img.segment_bits(top, m),
            bw.base@ == out0,
            final(bw.buf)@ == out1,
        decreases mcy1 - my,
    {
        let mut mx: usize = 0;
        let ghost m0 = m;
        while mx < mcx
            invariant
                w + 15 <= usize::MAX,
                mcy0 <= my < mcy1,
                w > 0 ==> h > 0 && 16 * mcy1 <= usize::MAX + 1 && holds_frame(
                    fb@,
                    w as int,
                    h as int,
                ),
                mcx == (w + 15) / 16,
                img == image(fb@, w, h),
                top == mcy0,
                mx <= mcx,
                m0 == (my - mcy0) * mcx,
                m == m0 + mx,
                recip_l@ == reciprocals_of(luma_steps()),
                recip_c@ == reciprocals_of(chroma_steps()),
                forall|i: int| 0 <= i < 64 ==> 0 <= #[trigger] recip_l@[i] <= 16384,
                forall|i: int| 0 <= i < 64 ==> 0 <= #[trigger] recip_c@[i] <= 16384,
                preds.before_mcu(img, top, m as int),
                bw.wf(),
                bw.bits@ == img.segment_bits(top, m),
                bw.base@ == out0,
                final(bw.buf)@ == out1,
            decreases mcx - mx,
        {
            proof {
                reveal(Image::mcu_x);
                reveal(Image::mcu_y);
                vstd::arithmetic::div_mod::lemma_fundamental_div_mod_converse(
                    m as int,
                    mcx as int,
                    (my - mcy0) as int,
                    mx as int,
                );
            }
            put_mcu(
                fb,
                w,
                h,
                mx * 16,
                my * 16,
                &recip_l,
                &recip_c,
                &mut preds,
                &mut bw,
                Ghost(top),
                Ghost(m as int),
            );
            mx = mx + 1;
            proof {
                m = m + 1;
            }
        }
        proof {
            assert((my - mcy0) * mcx + mcx == (my + 1 - mcy0) * mcx) by (nonlinear_arith);
        }
        my = my + 1;
    }
    proof {
        if mcy0 < mcy1 {
            assert(m == img.mcu_count(top, mcy1 as int));
        } else {
            assert(m == 0) by (nonlinear_arith)
                requires
                    m == (my - mcy0) * mcx,
                    my == mcy0,
            ;
        }
    }
    bw.flush();
    if bw.overflow || bw.pos > cap {
        None
    } else {
        Some(bw.pos)
    }
}

} // verus!
