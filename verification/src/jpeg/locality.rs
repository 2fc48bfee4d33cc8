//! Which pixels a segment depends on.

use vstd::prelude::*;

use super::bits::{pack, pad};
use super::block::quantized;
use super::dct::fdct_of;
use super::scan::{clamp_index, image, reciprocals_of, rgb888, Image};
use super::tables::{chroma_steps, luma_steps};
use crate::pixel::{holds_frame, pixel_at};

verus! {

/// The pixel rows of `a` from `y0` to before `y1` look like those of `b` that lie `d` rows further
/// down.
pub open spec fn same_rows(a: Image, b: Image, y0: int, y1: int, d: int) -> bool {
    forall|x: int, y: int|
        0 <= x && y0 <= y < y1 ==> #[trigger] a.rgb(x, y) == b.rgb(x, y + d)
}

proof fn lemma_same_luma(a: Image, b: Image, y0: int, y1: int, d: int, x: int, y: int)
    requires
        same_rows(a, b, y0, y1, d),
        0 <= x,
        y0 <= y,
        y + 8 <= y1,
    ensures
        a.luma_block(x, y) == b.luma_block(x, y + d),
{
    assert forall|i: int| 0 <= i < 64 implies a.luma_block(x, y)[i] == b.luma_block(
        x,
        y + d,
    )[i] by {
        assert(a.rgb(x + i % 8, y + i / 8) == b.rgb(x + i % 8, y + i / 8 + d));
        assert(y + i / 8 + d == y + d + i / 8);
    }
    assert(a.luma_block(x, y) =~= b.luma_block(x, y + d));
}

proof fn lemma_same_chroma(a: Image, b: Image, y0: int, y1: int, d: int, x: int, y: int)
    requires
        same_rows(a, b, y0, y1, d),
        0 <= x,
        y0 <= y,
        y + 16 <= y1,
    ensures
        a.cb_block(x, y) == b.cb_block(x, y + d),
        a.cr_block(x, y) == b.cr_block(x, y + d),
{
    assert forall|i: int| 0 <= i < 64 implies a.rgb_mean(
        x + 2 * (i % 8),
        y + 2 * (i / 8),
    ) == #[trigger] b.rgb_mean(x + 2 * (i % 8), y + d + 2 * (i / 8)) by {
        let (u, v) = (x + 2 * (i % 8), y + 2 * (i / 8));
        let v2 = y + d + 2 * (i / 8);
        assert(v + d == v2 && v + 1 + d == v2 + 1);
        assert(a.rgb(u, v) == b.rgb(u, v2));
        assert(a.rgb(u + 1, v) == b.rgb(u + 1, v2));
        assert(a.rgb(u, v + 1) == b.rgb(u, v2 + 1));
        assert(a.rgb(u + 1, v + 1) == b.rgb(u + 1, v2 + 1));
    }
    assert(a.cb_block(x, y) =~= b.cb_block(x, y + d));
    assert(a.cr_block(x, y) =~= b.cr_block(x, y + d));
}

/// Luma block `k` of the `m`-th MCU, by the place of the MCU.
proof fn lemma_luma_q_at(img: Image, top: int, m: int, k: int)
    requires
        0 <= k < 4,
    ensures
        img.luma_q(top, 4 * m + k) == quantized(
            fdct_of(img.luma_block(img.mcu_x(m) + 8 * (k % 2), img.mcu_y(top, m) + 8 * (k / 2))),
            reciprocals_of(luma_steps()),
        ),
{
    reveal(Image::luma_q);
    let t = 4 * m + k;
    assert(t / 4 == m && t % 2 == k % 2 && t % 4 / 2 == k / 2);
}

/// The `m`-th MCU of a segment of `a` that begins with MCU row `top` has the coefficients of the
/// `m`-th MCU of a segment of `b` that begins with MCU row `top2`.
spec fn matching_mcu(a: Image, top: int, b: Image, top2: int, m: int) -> bool {
    &&& forall|k: int|
        0 <= k < 4 ==> #[trigger] a.luma_q(top, 4 * m + k) == b.luma_q(top2, 4 * m + k)
    &&& a.cb_q(top, m) == b.cb_q(top2, m)
    &&& a.cr_q(top, m) == b.cr_q(top2, m)
}

/// Segments of `rows` MCU rows cover rows that look the same.
spec fn matching(a: Image, top: int, b: Image, top2: int, rows: int) -> bool {
    &&& a.mcus_per_row() == b.mcus_per_row()
    &&& a.w > 0
    &&& same_rows(a, b, 16 * top, 16 * (top + rows), 16 * (top2 - top))
}

/// The place of the `m`-th MCU.
proof fn lemma_place(a: Image, top: int, b: Image, top2: int, rows: int, m: int)
    requires
        matching(a, top, b, top2, rows),
        0 <= m < rows * a.mcus_per_row(),
    ensures
        0 <= a.mcu_x(m),
        b.mcu_x(m) == a.mcu_x(m),
        16 * top <= a.mcu_y(top, m),
        a.mcu_y(top, m) + 16 <= 16 * (top + rows),
        b.mcu_y(top2, m) == a.mcu_y(top, m) + 16 * (top2 - top),
{
    reveal(Image::mcu_x);
    reveal(Image::mcu_y);
    let c = a.mcus_per_row();
    assert(0 <= m / c < rows) by (nonlinear_arith)
        requires
            0 <= m < rows * c,
            c > 0,
    ;
}

proof fn lemma_matching_mcu(a: Image, top: int, b: Image, top2: int, rows: int, m: int)
    requires
        matching(a, top, b, top2, rows),
        0 <= m < rows * a.mcus_per_row(),
    ensures
        matching_mcu(a, top, b, top2, m),
{
    lemma_place(a, top, b, top2, rows, m);
    let (x, y) = (a.mcu_x(m), a.mcu_y(top, m));
    let (y0, y1, d) = (16 * top, 16 * (top + rows), 16 * (top2 - top));
    assert forall|k: int| 0 <= k < 4 implies #[trigger] a.luma_q(top, 4 * m + k) == b.luma_q(
        top2,
        4 * m + k,
    ) by {
        lemma_luma_q_at(a, top, m, k);
        lemma_luma_q_at(b, top2, m, k);
        lemma_same_luma(a, b, y0, y1, d, x + 8 * (k % 2), y + 8 * (k / 2));
        assert(y + 8 * (k / 2) + d == b.mcu_y(top2, m) + 8 * (k / 2));
    }
    lemma_same_chroma(a, b, y0, y1, d, x, y);
    reveal(Image::cb_q);
    reveal(Image::cr_q);
}

/// MCUs with the same coefficients, behind MCUs with the same coefficients, have the same bits.
proof fn lemma_matching_bits(a: Image, top: int, b: Image, top2: int, m: int)
    requires
        m >= 0,
        matching_mcu(a, top, b, top2, m),
        m > 0 ==> matching_mcu(a, top, b, top2, m - 1),
    ensures
        a.mcu_bits(top, m) == b.mcu_bits(top2, m),
{
    assert(a.luma_q(top, 4 * m + 0) == b.luma_q(top2, 4 * m + 0));
    assert(a.luma_q(top, 4 * m + 1) == b.luma_q(top2, 4 * m + 1));
    assert(a.luma_q(top, 4 * m + 2) == b.luma_q(top2, 4 * m + 2));
    assert(a.luma_q(top, 4 * m + 3) == b.luma_q(top2, 4 * m + 3));
    if m > 0 {
        assert(a.luma_q(top, 4 * (m - 1) + 3) == b.luma_q(top2, 4 * (m - 1) + 3));
        assert(4 * m - 1 == 4 * (m - 1) + 3);
    }
    reveal(Image::luma_bits);
    reveal(Image::cb_bits);
    reveal(Image::cr_bits);
    assert(a.luma_pred(top, 4 * m) == b.luma_pred(top2, 4 * m));
}

proof fn lemma_matching_segment(a: Image, top: int, b: Image, top2: int, rows: int, n: nat)
    requires
        matching(a, top, b, top2, rows),
        n <= rows * a.mcus_per_row(),
    ensures
        a.segment_bits(top, n) == b.segment_bits(top2, n),
    decreases n,
{
    if n > 0 {
        let m = n - 1;
        lemma_matching_segment(a, top, b, top2, rows, m as nat);
        lemma_matching_mcu(a, top, b, top2, rows, m);
        if m > 0 {
            lemma_matching_mcu(a, top, b, top2, rows, m - 1);
        }
        lemma_matching_bits(a, top, b, top2, m);
    }
}

/// Segments that cover rows that look the same consist of the same bytes.
proof fn lemma_matching_scan(a: Image, top: int, b: Image, top2: int, rows: int)
    requires
        matching(a, top, b, top2, rows),
    ensures
        a.scan_bytes(top, top + rows) == b.scan_bytes(top2, top2 + rows),
{
    if rows > 0 {
        assert(0 <= rows * a.mcus_per_row()) by (nonlinear_arith)
            requires
                rows > 0,
                a.mcus_per_row() > 0,
        ;
        lemma_matching_segment(a, top, b, top2, rows, (rows * a.mcus_per_row()) as nat);
    }
}

/// A segment is self-contained: it depends on nothing but the pixel rows that it covers.
pub proof fn law_segment_local(a: Image, b: Image, top: int, end: int)
    requires
        a.w == b.w,
        a.w > 0,
        same_rows(a, b, 16 * top, 16 * end, 0),
    ensures
        a.scan_bytes(top, end) == b.scan_bytes(top, end),
{
    lemma_matching_scan(a, top, b, top, end - top);
}

/// A frame without the pixel rows above MCU row `top`.
pub open spec fn below(img: Image, top: int) -> Image {
    Image {
        words: img.words.skip(8 * top * img.w),
        w: img.w,
        h: img.h - 16 * top,
    }
}

/// A frame from MCU row `top` on looks like the frame that begins there.
proof fn lemma_below(img: Image, top: int, x: int, y: int)
    requires
        img.w > 0,
        0 <= top,
        16 * top < img.h,
        holds_frame(img.words, img.w, img.h),
        0 <= x,
        16 * top <= y,
    ensures
        img.rgb(x, y) == below(img, top).rgb(x, y - 16 * top),
{
    let (cx, cy) = (clamp_index(x, img.w), clamp_index(y, img.h));
    let cut = 8 * top * img.w;
    let i = cy * img.w + cx;
    let j = (cy - 16 * top) * img.w + cx;
    assert(clamp_index(y - 16 * top, img.h - 16 * top) == cy - 16 * top);
    assert(i == j + 2 * cut && 0 <= j && 0 <= cut && i < img.w * img.h) by (nonlinear_arith)
        requires
            i == cy * img.w + cx,
            j == (cy - 16 * top) * img.w + cx,
            cut == 8 * top * img.w,
            0 <= cx < img.w,
            0 <= top,
            16 * top <= cy < img.h,
    ;
    assert(i / 2 == j / 2 + cut && i % 2 == j % 2);
    assert(img.words.skip(cut)[j / 2] == img.words[i / 2]);
}

/// A segment is the first one of the frame that begins with its first pixel row: where in a frame a
/// segment lies does not show in its bytes.
pub proof fn law_segment_shift(img: Image, top: int, end: int)
    requires
        img.w > 0,
        0 <= top,
        16 * top < img.h,
        holds_frame(img.words, img.w, img.h),
    ensures
        img.scan_bytes(top, end) == below(img, top).scan_bytes(0, end - top),
{
    let b = below(img, top);
    assert forall|x: int, y: int| 0 <= x && 16 * top <= y < 16 * end implies #[trigger] img.rgb(
        x,
        y,
    ) == b.rgb(x, y + 16 * (0 - top)) by {
        lemma_below(img, top, x, y);
        assert(y - 16 * top == y + 16 * (0 - top));
    }
    lemma_matching_scan(img, top, b, 0, end - top);
}

/// Pixel `(x, y)` of a frame.
pub open spec fn pixel_of(img: Image, x: int, y: int) -> u32 {
    pixel_at(img.words, y * img.w + x)
}

/// `p` is `img` filled up to whole MCUs: beyond the right and bottom edges its last column and row
/// repeat.
pub open spec fn padded(img: Image, p: Image) -> bool {
    &&& p.w == 16 * img.mcus_per_row()
    &&& p.h == 16 * ((img.h + 15) / 16)
    &&& forall|x: int, y: int|
        0 <= x < p.w && 0 <= y < p.h ==> #[trigger] pixel_of(p, x, y) == pixel_of(
            img,
            clamp_index(x, img.w),
            clamp_index(y, img.h),
        )
}

/// A frame that is filled up to whole MCUs by repeating its last column and row gives the same
/// bytes: nothing outside the frame shows in a segment.
pub proof fn law_segment_padded(img: Image, p: Image, top: int, end: int)
    requires
        img.w > 0,
        img.h > 0,
        padded(img, p),
        0 <= top,
    ensures
        img.scan_bytes(top, end) == p.scan_bytes(top, end),
{
    assert(p.mcus_per_row() == img.mcus_per_row());
    assert forall|x: int, y: int| 0 <= x && 16 * top <= y < 16 * end implies #[trigger] img.rgb(
        x,
        y,
    ) == p.rgb(x, y + 16 * (top - top)) by {
        let (px, py) = (clamp_index(x, p.w), clamp_index(y, p.h));
        assert(p.rgb(x, y) == rgb888(pixel_of(p, px, py)));
        assert(clamp_index(px, img.w) == clamp_index(x, img.w));
        assert(clamp_index(py, img.h) == clamp_index(y, img.h));
    }
    lemma_matching_scan(img, top, p, top, end - top);
}

/// The MCUs of a segment tile the rows that it covers: going from left to right and then down, the
/// MCU of column `c` in MCU row `r` has its left edge at `16 * c` and its top edge at `16 * r`.
pub proof fn law_mcu_places(img: Image, top: int, end: int, r: int, c: int)
    requires
        img.w > 0,
        top <= r < end,
        0 <= c < (img.w + 15) / 16,
    ensures
        img.mcus_per_row() == (img.w + 15) / 16,
        img.mcu_count(top, end) == (end - top) * ((img.w + 15) / 16),
        0 <= (r - top) * ((img.w + 15) / 16) + c < img.mcu_count(top, end),
        img.mcu_x((r - top) * ((img.w + 15) / 16) + c) == 16 * c,
        img.mcu_y(top, (r - top) * ((img.w + 15) / 16) + c) == 16 * r,
{
    reveal(Image::mcu_x);
    reveal(Image::mcu_y);
    let n = (img.w + 15) / 16;
    let m = (r - top) * n + c;
    assert(m / n == r - top && m % n == c && 0 <= m < (end - top) * n) by (nonlinear_arith)
        requires
            m == (r - top) * n + c,
            0 <= c < n,
            top <= r < end,
    ;
}

/// RGB888 of a place is that of the pixel there, or of the nearest one beyond the right and bottom
/// edges: the bits of each channel, and behind them its top bits again.
pub proof fn law_rgb(img: Image, x: int, y: int, px: u32)
    requires
        img.w > 0,
        img.h > 0,
        0 <= x,
        0 <= y,
        px == pixel_at(
            img.words,
            (if y < img.h {
                y
            } else {
                img.h - 1
            }) * img.w + if x < img.w {
                x
            } else {
                img.w - 1
            },
        ),
    ensures
        img.rgb(x, y) == (
            px / 2048 % 32 * 8 + px / 2048 % 32 / 4,
            px / 32 % 64 * 4 + px / 32 % 64 / 16,
            px % 32 * 8 + px % 32 / 4,
        ),
{
}

/// Luma block `k` of the MCU of column `c` in MCU row `r` is made of the brightness, less 128, of the
/// 64 pixels at its own place.
pub proof fn law_luma_from_pixels(img: Image, top: int, r: int, c: int, k: int, s: Seq<i32>)
    requires
        img.w > 0,
        top <= r,
        0 <= c < (img.w + 15) / 16,
        0 <= k < 4,
        s.len() == 64,
        forall|i: int|
            0 <= i < 64 ==> #[trigger] s[i] == {
                let p = img.rgb(16 * c + 8 * (k % 2) + i % 8, 16 * r + 8 * (k / 2) + i / 8);
                (77 * p.0 + 150 * p.1 + 29 * p.2) / 256 - 128
            },
    ensures
        img.luma_q(top, 4 * ((r - top) * ((img.w + 15) / 16) + c) + k) == quantized(
            fdct_of(s),
            reciprocals_of(luma_steps()),
        ),
{
    let m = (r - top) * ((img.w + 15) / 16) + c;
    law_mcu_places(img, top, r + 1, r, c);
    lemma_luma_q_at(img, top, m, k);
    assert(img.luma_block(16 * c + 8 * (k % 2), 16 * r + 8 * (k / 2)) =~= s);
}

/// The chroma blocks of the MCU of column `c` in MCU row `r` are made of the colour differences of
/// the means of two by two pixels at their own place.
pub proof fn law_chroma_from_pixels(
    img: Image,
    top: int,
    r: int,
    c: int,
    mean: Seq<(int, int, int)>,
    cb: Seq<i32>,
    cr: Seq<i32>,
)
    requires
        img.w > 0,
        top <= r,
        0 <= c < (img.w + 15) / 16,
        mean.len() == 64,
        cb.len() == 64,
        cr.len() == 64,
        forall|i: int|
            0 <= i < 64 ==> #[trigger] mean[i] == {
                let (x, y) = (16 * c + 2 * (i % 8), 16 * r + 2 * (i / 8));
                let (p, q, u, v) = (
                    img.rgb(x, y),
                    img.rgb(x + 1, y),
                    img.rgb(x, y + 1),
                    img.rgb(x + 1, y + 1),
                );
                (
                    (p.0 + q.0 + u.0 + v.0) / 4,
                    (p.1 + q.1 + u.1 + v.1) / 4,
                    (p.2 + q.2 + u.2 + v.2) / 4,
                )
            },
        forall|i: int|
            0 <= i < 64 ==> #[trigger] cb[i] == (128 * mean[i].2 - 43 * mean[i].0 - 85
                * mean[i].1) / 256,
        forall|i: int|
            0 <= i < 64 ==> #[trigger] cr[i] == (128 * mean[i].0 - 107 * mean[i].1 - 21
                * mean[i].2) / 256,
    ensures
        img.cb_q(top, (r - top) * ((img.w + 15) / 16) + c) == quantized(
            fdct_of(cb),
            reciprocals_of(chroma_steps()),
        ),
        img.cr_q(top, (r - top) * ((img.w + 15) / 16) + c) == quantized(
            fdct_of(cr),
            reciprocals_of(chroma_steps()),
        ),
{
    law_mcu_places(img, top, r + 1, r, c);
    reveal(Image::cb_q);
    reveal(Image::cr_q);
    assert forall|i: int| 0 <= i < 64 implies img.rgb_mean(
        16 * c + 2 * (i % 8),
        16 * r + 2 * (i / 8),
    ) == #[trigger] mean[i] by {}
    assert(img.cb_block(16 * c, 16 * r) =~= cb) by {
        assert forall|i: int| 0 <= i < 64 implies img.cb_block(16 * c, 16 * r)[i] == cb[i] by {
            assert(mean[i] == img.rgb_mean(16 * c + 2 * (i % 8), 16 * r + 2 * (i / 8)));
        }
    }
    assert(img.cr_block(16 * c, 16 * r) =~= cr) by {
        assert forall|i: int| 0 <= i < 64 implies img.cr_block(16 * c, 16 * r)[i] == cr[i] by {
            assert(mean[i] == img.rgb_mean(16 * c + 2 * (i % 8), 16 * r + 2 * (i / 8)));
        }
    }
}

/// The frame behind a slice is all of it, at the size that was given.
pub proof fn law_image(fb: Seq<u32>, w: usize, h: usize)
    ensures
        image(fb, w, h) == (Image { words: fb, w: w as int, h: h as int }),
{
}

/// A segment of no MCU rows has no bytes.
pub proof fn law_empty_segment(img: Image, top: int, end: int)
    requires
        end <= top,
    ensures
        img.scan_bytes(top, end) == Seq::<u8>::empty(),
{
    let none = Seq::<bool>::empty();
    assert(img.segment_bits(top, 0) == none);
    assert(pad(none) =~= none);
    assert(pack(none) =~= Seq::<u8>::empty());
}

} // verus!
