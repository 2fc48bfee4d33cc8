//! What holds of every scan and every file.

use vstd::prelude::*;

use super::bits::{pack, pad, stuff};
use super::block::{magnitude, quantize, quantized};
use super::dct::{
    bounded, column, column_pass, dct_line, fdct_of, lemma_line_bound, row, SAMPLE_LIMIT,
};
use super::scan::{lemma_coefficients, lemma_quantized_small, reciprocals_of, small, Image};
use super::tables::{chroma_steps, luma_steps};

verus! {

/// Every 0xFF in `s` is followed by a zero byte.
pub open spec fn marker_free(s: Seq<u8>) -> bool {
    forall|i: int|
        0 <= i < s.len() && #[trigger] s[i] == 0xFF ==> i + 1 < s.len() && s[i + 1] == 0
}

/// Stuffed data hold no marker.
pub proof fn law_stuff_marker_free(s: Seq<u8>)
    ensures
        marker_free(stuff(s)),
    decreases s.len(),
{
    if s.len() > 0 {
        let head = stuff(s.drop_last());
        law_stuff_marker_free(s.drop_last());
        assert forall|i: int| 0 <= i < stuff(s).len() && #[trigger] stuff(s)[i] == 0xFF implies i
            + 1 < stuff(s).len() && stuff(s)[i + 1] == 0 by {
            if i < head.len() {
                assert(head[i] == 0xFF);
            }
        }
    }
}

/// The entropy-coded data of a scan hold no marker: the byte stream of a segment can be cut at
/// markers and nowhere else.
pub proof fn law_scan_marker_free(img: Image, top: int, end: int)
    ensures
        marker_free(img.scan_bytes(top, end)),
{
    law_stuff_marker_free(pack(pad(img.segment_bits(top, img.mcu_count(top, end)))));
}

/// Segments that were encoded apart can be told apart: where they are joined by a marker, the marker
/// is the first one there is.
pub proof fn law_restart_splits(
    a1: Seq<u8>,
    a2: Seq<u8>,
    b1: Seq<u8>,
    b2: Seq<u8>,
    code: u8,
)
    requires
        code != 0,
        marker_free(a1),
        marker_free(b1),
        a1 + seq![0xFFu8, code] + a2 == b1 + seq![0xFFu8, code] + b2,
    ensures
        a1 == b1,
        a2 == b2,
{
    let s = a1 + seq![0xFFu8, code] + a2;
    let t = b1 + seq![0xFFu8, code] + b2;
    let (m, n) = (a1.len() as int, b1.len() as int);
    assert(s[m] == 0xFF && s[m + 1] == code);
    assert(t[n] == 0xFF && t[n + 1] == code);
    if m < n {
        assert(b1[m] == t[m]);
        assert(b1[m + 1] == t[m + 1]);
    }
    if n < m {
        assert(a1[n] == s[n]);
        assert(a1[n + 1] == s[n + 1]);
    }
    assert(a1 =~= s.take(m));
    assert(b1 =~= t.take(n));
    assert(a2 =~= s.skip(m + 2));
    assert(b2 =~= t.skip(n + 2));
}

proof fn lemma_reciprocals(steps: Seq<u8>)
    requires
        forall|i: int| 0 <= i < 64 ==> #[trigger] steps[i] >= 4,
    ensures
        forall|i: int| 0 <= i < 64 ==> 0 <= #[trigger] reciprocals_of(steps)[i] <= 16384,
{
    assert forall|i: int| 0 <= i < 64 implies 0 <= #[trigger] reciprocals_of(steps)[i]
        <= 16384 by {
        let q = steps[i] as int;
        assert(0 <= (65536 + q / 2) / q <= 16384) by (nonlinear_arith)
            requires
                4 <= q,
        ;
    }
}

proof fn lemma_block_small(b: Seq<i32>, steps: Seq<u8>)
    requires
        b.len() == 64,
        bounded(b, 128),
        forall|i: int| 0 <= i < 64 ==> #[trigger] steps[i] >= 4,
    ensures
        small(quantized(fdct_of(b), reciprocals_of(steps))),
{
    lemma_reciprocals(steps);
    lemma_coefficients(b);
    lemma_quantized_small(fdct_of(b), reciprocals_of(steps));
}

/// Every quantized block of every image is small enough for the code tables.
pub proof fn law_blocks_small(img: Image, top: int, m: int)
    ensures
        forall|t: int| small(#[trigger] img.luma_q(top, t)),
        small(img.cb_q(top, m)),
        small(img.cr_q(top, m)),
{
    reveal(Image::cb_q);
    reveal(Image::cr_q);
    assert forall|t: int| small(#[trigger] img.luma_q(top, t)) by {
        reveal(Image::luma_q);
        let b = img.luma_block(
            img.mcu_x(t / 4) + 8 * (t % 2),
            img.mcu_y(top, t / 4) + 8 * (t % 4 / 2),
        );
        assert(bounded(b, 128));
        assert(forall|i: int| 0 <= i < 64 ==> #[trigger] luma_steps()[i] >= 4) by {
            reveal(luma_steps);
        }
        lemma_block_small(b, luma_steps());
    }
    assert(forall|i: int| 0 <= i < 64 ==> #[trigger] chroma_steps()[i] >= 4) by {
        reveal(chroma_steps);
    }
    let cb = img.cb_block(img.mcu_x(m), img.mcu_y(top, m));
    let cr = img.cr_block(img.mcu_x(m), img.mcu_y(top, m));
    assert(bounded(cb, 128));
    assert(bounded(cr, 128));
    lemma_block_small(cb, chroma_steps());
    lemma_block_small(cr, chroma_steps());
}

/// Sum of one line.
pub open spec fn line_sum(d: Seq<i32>) -> int {
    d[0] + d[1] + d[2] + d[3] + d[4] + d[5] + d[6] + d[7]
}

/// Sum of all samples of a block, column by column.
pub open spec fn block_sum(b: Seq<i32>) -> int {
    line_sum(column(b, 0)) + line_sum(column(b, 1)) + line_sum(column(b, 2)) + line_sum(
        column(b, 3),
    ) + line_sum(column(b, 4)) + line_sum(column(b, 5)) + line_sum(column(b, 6)) + line_sum(
        column(b, 7),
    )
}

proof fn lemma_column_dc(b: Seq<i32>, c: int)
    requires
        b.len() == 64,
        bounded(b, SAMPLE_LIMIT as int),
        0 <= c < 8,
    ensures
        column_pass(b)[c] == 4 * line_sum(column(b, c)),
        -32 * SAMPLE_LIMIT <= column_pass(b)[c] <= 32 * SAMPLE_LIMIT,
{
    let d = column(b, c);
    assert forall|j: int| 0 <= j < 8 implies -SAMPLE_LIMIT <= #[trigger] d[j] <= SAMPLE_LIMIT by {
        assert(d[j] == b[8 * j + c]);
    }
    lemma_line_bound(0, d, SAMPLE_LIMIT as int);
}

/// The DC coefficient is the exact sum of the samples: eight times the normalized one.
pub proof fn law_dc_is_sum(b: Seq<i32>)
    requires
        b.len() == 64,
        bounded(b, SAMPLE_LIMIT as int),
    ensures
        fdct_of(b)[0] == block_sum(b),
{
    reveal(fdct_of);
    let mid = column_pass(b);
    lemma_column_dc(b, 0);
    lemma_column_dc(b, 1);
    lemma_column_dc(b, 2);
    lemma_column_dc(b, 3);
    lemma_column_dc(b, 4);
    lemma_column_dc(b, 5);
    lemma_column_dc(b, 6);
    lemma_column_dc(b, 7);
    let d = row(mid, 0);
    assert(dct_line(0, d, 15) == block_sum(b));
}

/// A flat block has no AC coefficients.
#[verifier::rlimit(40)]
pub proof fn law_flat_block(b: Seq<i32>, v: i32)
    requires
        b.len() == 64,
        -SAMPLE_LIMIT <= v <= SAMPLE_LIMIT,
        forall|i: int| 0 <= i < 64 ==> #[trigger] b[i] == v,
    ensures
        fdct_of(b)[0] == 64 * v,
        forall|i: int| 1 <= i < 64 ==> #[trigger] fdct_of(b)[i] == 0,
{
    reveal(fdct_of);
    let mid = column_pass(b);
    assert forall|i: int| 0 <= i < 64 implies #[trigger] mid[i] == if i < 8 {
        32 * v
    } else {
        0
    } by {
        let d = column(b, i % 8);
        assert(dct_line(i / 8, d, 11) == if i < 8 {
            32 * v
        } else {
            0
        });
    }
    assert forall|i: int| 0 <= i < 64 implies #[trigger] fdct_of(b)[i] == if i == 0 {
        64 * v
    } else {
        0
    } by {
        let d = row(mid, i / 8);
        assert(dct_line(i % 8, d, 15) == if i == 0 {
            64 * v
        } else {
            0
        });
    }
}

/// Quantization and reconstruction move a coefficient, which carries a factor of 8, by no more
/// than half a step, which is `4 * step`, and a 64th of that.
pub proof fn law_quantize_error(c: int, step: int)
    requires
        1 <= step <= 255,
        -8192 <= c <= 8192,
    ensures
        ({
            let q = quantize(c, (65536 + step / 2) / step);
            16 * magnitude(8 * step * q - c) <= 65 * step
        }),
{
    let r = (65536 + step / 2) / step;
    let a = magnitude(c) as int;
    let m = (a * r + 0x4_0000) / 0x8_0000;
    let q = quantize(c, r);
    assert(65536 + step / 2 - step < r * step <= 65536 + step / 2) by (nonlinear_arith)
        requires
            r == (65536 + step / 2) / step,
            1 <= step,
    ;
    let e = r * step - 65536;
    assert(-step <= 2 * e <= step);
    assert(a * r - 0x4_0000 < 0x8_0000 * m <= a * r + 0x4_0000);
    assert((a * r) * step == a * 65536 + a * e) by (nonlinear_arith)
        requires
            e == r * step - 65536,
    ;
    assert(-4096 * step <= a * e <= 4096 * step) by (nonlinear_arith)
        requires
            0 <= a <= 8192,
            -step <= 2 * e <= step,
            1 <= step,
    ;
    assert((a * r - 0x4_0000) * step <= 0x8_0000 * (m * step) <= (a * r + 0x4_0000) * step)
        by (nonlinear_arith)
        requires
            a * r - 0x4_0000 < 0x8_0000 * m <= a * r + 0x4_0000,
            1 <= step,
    ;
    assert((a * r - 0x4_0000) * step == (a * r) * step - 0x4_0000 * step) by (nonlinear_arith);
    assert((a * r + 0x4_0000) * step == (a * r) * step + 0x4_0000 * step) by (nonlinear_arith);
    assert(8 * step * m == 8 * (m * step)) by (nonlinear_arith);
    assert(8 * step * (-m) == -(8 * (m * step))) by (nonlinear_arith);
}

} // verus!
