//! What the coefficients keep of the samples, and where the file says how to undo them.

use vstd::prelude::*;

use super::block::{magnitude, natural_index, quantize, quantized};
use super::dct::{bounded, column, column_pass, dct_sum, fdct_of, lemma_line_bound, row, SAMPLE_LIMIT};
use super::header::{header_bytes, lemma_header_length};
use super::scan::{reciprocals_of, Image};
use super::tables::{
    chroma_steps, luma_steps, DHT_AC_C_BITS, DHT_AC_C_VAL, DHT_AC_L_BITS, DHT_AC_L_VAL,
    DHT_DC_C_BITS, DHT_DC_C_VAL, DHT_DC_L_BITS, DHT_DC_L_VAL,
};
use super::jpeg_bytes;

verus! {

/// `k`-th row, `j`-th column of the DCT matrix: `2^13 * sqrt(2) * cos((2j + 1) * k * pi / 16)`, and
/// `2^13` in row 0, rounded.
pub open spec fn cosine(k: int, j: int) -> int {
    if k == 0 {
        8192
    } else {
        seq![
            seq![11363int, 9633, 6436, 2260, -2260, -6436, -9633, -11363],
            seq![10703int, 4433, -4433, -10703, -10703, -4433, 4433, 10703],
            seq![9633int, -2260, -11363, -6436, 6436, 11363, 2260, -9633],
            seq![8192int, -8192, -8192, 8192, 8192, -8192, -8192, 8192],
            seq![6436int, -11363, 2260, 9633, -9633, -2260, 11363, -6436],
            seq![4433int, -10703, 10703, -4433, -4433, 10703, -10703, 4433],
            seq![2260int, -6436, 9633, -11363, 11363, -9633, 6436, -2260],
        ][k - 1][j]
    }
}

/// The inverse transform of a line at place `j`.
pub open spec fn inverse(d: Seq<i32>, j: int) -> int {
    cosine(0, j) * dct_sum(0, d) + cosine(1, j) * dct_sum(1, d) + cosine(2, j) * dct_sum(2, d)
        + cosine(3, j) * dct_sum(3, d) + cosine(4, j) * dct_sum(4, d) + cosine(5, j) * dct_sum(5, d)
        + cosine(6, j) * dct_sum(6, d) + cosine(7, j) * dct_sum(7, d)
}

/// The transform of a line can be undone: the inverse transform gives every sample back, `2^29`
/// times as large, up to less than a 3900th of the largest sample.
#[verifier::rlimit(40)]
pub proof fn law_line_inverse(d: Seq<i32>, j: int, limit: int)
    requires
        d.len() == 8,
        0 <= j < 8,
        0 <= limit,
        bounded(d, limit),
    ensures
        -137330 * limit <= inverse(d, j) - 0x2000_0000 * d[j] <= 137330 * limit,
{
    assert(-limit <= d[0] <= limit && -limit <= d[1] <= limit && -limit <= d[2] <= limit && -limit
        <= d[3] <= limit && -limit <= d[4] <= limit && -limit <= d[5] <= limit && -limit <= d[6]
        <= limit && -limit <= d[7] <= limit);
    assert(j == 0 || j == 1 || j == 2 || j == 3 || j == 4 || j == 5 || j == 6 || j == 7);
}

/// A block is transformed by columns and then by rows: each coefficient is that of its row of the
/// columns' coefficients, which carry two bits of fraction; every value is rounded to the nearest.
pub proof fn law_fdct_passes(b: Seq<i32>, mid: Seq<i32>, i: int, col: Seq<i32>, line: Seq<i32>)
    requires
        b.len() == 64,
        bounded(b, SAMPLE_LIMIT as int),
        mid.len() == 64,
        mid == column_pass(b),
        0 <= i < 64,
        col.len() == 8,
        line.len() == 8,
        forall|j: int| 0 <= j < 8 ==> #[trigger] col[j] == b[8 * j + i % 8],
        forall|j: int| 0 <= j < 8 ==> #[trigger] line[j] == mid[8 * (i / 8) + j],
    ensures
        mid[i] == (dct_sum(i / 8, col) + 1024) / 2048,
        fdct_of(b).len() == 64,
        fdct_of(b)[i] == (dct_sum(i % 8, line) + 16384) / 32768,
{
    reveal(fdct_of);
    assert(column(b, i % 8) =~= col);
    assert(row(mid, i / 8) =~= line);
    assert(bounded(col, SAMPLE_LIMIT as int));
    lemma_line_bound(i / 8, col, SAMPLE_LIMIT as int);
    assert forall|k: int| 0 <= k < 64 implies -32 * SAMPLE_LIMIT <= #[trigger] mid[k] <= 32
        * SAMPLE_LIMIT by {
        assert(bounded(column(b, k % 8), SAMPLE_LIMIT as int));
        lemma_line_bound(k / 8, column(b, k % 8), SAMPLE_LIMIT as int);
    }
    assert(bounded(line, 32 * SAMPLE_LIMIT as int));
    lemma_line_bound(i % 8, line, 32 * SAMPLE_LIMIT as int);
}

/// The reciprocal of a quantization step is `2^16 / step`, rounded to the nearest.
pub proof fn law_reciprocal(steps: Seq<u8>, i: int)
    requires
        0 <= i < 64,
        1 <= steps[i],
    ensures
        reciprocals_of(steps).len() == 64,
        -(steps[i] as int) <= 2 * (reciprocals_of(steps)[i] * steps[i] - 65536) <= steps[i],
{
    let q = steps[i] as int;
    let r = (65536 + q / 2) / q;
    assert(65536 + q / 2 - q < r * q <= 65536 + q / 2 && 0 <= r <= 65536 + q / 2)
        by (nonlinear_arith)
        requires
            r == (65536 + q / 2) / q,
            1 <= q <= 255,
    ;
    assert(reciprocals_of(steps)[i] == r);
    assert(-q <= 2 * (r * q - 65536) <= q);
}

/// Quantization rounds the coefficient times the reciprocal, scaled down by `2^19`, to the nearest,
/// and treats both signs alike.
pub proof fn law_quantize(c: int, recip: int)
    requires
        0 <= c,
        0 <= recip,
    ensures
        0x8_0000 * quantize(c, recip) <= c * recip + 0x4_0000 < 0x8_0000 * (quantize(c, recip) + 1),
        quantize(-c, recip) == -quantize(c, recip),
{
    assert(0 <= c * recip && (c == 0 ==> c * recip == 0)) by (nonlinear_arith)
        requires
            0 <= c,
            0 <= recip,
    ;
    assert(magnitude(-c) == c && magnitude(c) == c);
}

/// Each coefficient of a block is quantized by itself, with its own reciprocal.
pub proof fn law_quantized(coef: Seq<i32>, recip: Seq<i32>, i: int)
    requires
        0 <= i < 64,
    ensures
        quantized(coef, recip).len() == 64,
        quantized(coef, recip)[i] == quantize(coef[i] as int, recip[i] as int),
{
}

/// Zigzag order goes from diagonal to diagonal: down along the odd ones, up along the even ones.
pub proof fn law_zigzag_path(k: int)
    requires
        0 <= k < 63,
    ensures
        natural_index(0) == 0,
        natural_index(63) == 63,
        ({
            let (i, j) = (natural_index(k), natural_index(k + 1));
            let (r, c) = (i / 8, i % 8);
            j == if (r + c) % 2 == 0 {
                if c == 7 {
                    i + 8
                } else if r == 0 {
                    i + 1
                } else {
                    i - 7
                }
            } else {
                if r == 7 {
                    i + 1
                } else if c == 0 {
                    i + 8
                } else {
                    i + 7
                }
            }
        }),
{
    reveal(natural_index);
}

/// Standard luma quantization steps, in natural order.
pub open spec fn standard_luma() -> Seq<int> {
    seq![
        16, 11, 10, 16, 24, 40, 51, 61, 12, 12, 14, 19, 26, 58, 60, 55, 14, 13, 16, 24, 40, 57, 69,
        56, 14, 17, 22, 29, 51, 87, 80, 62, 18, 22, 37, 56, 68, 109, 103, 77, 24, 35, 55, 64, 81,
        104, 113, 92, 49, 64, 78, 87, 103, 121, 120, 101, 72, 92, 95, 98, 112, 100, 103, 99,
    ]
}

/// A standard chroma quantization step, by its natural index.
pub open spec fn standard_chroma(i: int) -> int {
    if i % 8 < 4 && i / 8 < 4 {
        seq![17, 18, 24, 47, 18, 21, 26, 66, 24, 26, 56, 99, 47, 66, 99, 99][4 * (i / 8) + i % 8]
    } else {
        99
    }
}

/// The quantization steps are the standard ones for quality 80: four tenths of them, rounded.
pub proof fn law_quality(i: int)
    requires
        0 <= i < 64,
    ensures
        luma_steps()[i] == (40 * standard_luma()[i] + 50) / 100,
        chroma_steps()[i] == (40 * standard_chroma(i) + 50) / 100,
{
    reveal(luma_steps);
    reveal(chroma_steps);
}

/// The headers announce the steps that the coefficients were quantized with, in zigzag order, and
/// the size of the picture.
pub proof fn law_headers_announce(w: int, h: int, k: int)
    requires
        0 <= k < 64,
        0 <= w <= 65535,
        0 <= h <= 65535,
    ensures
        ({
            let s = header_bytes(w, h, 0);
            &&& s.len() == 623
            &&& s.subrange(0, 6) == seq![0xFFu8, 0xD8, 0xFF, 0xE0, 0, 16]
            &&& s.subrange(20, 25) == seq![0xFFu8, 0xDB, 0, 67, 0]
            &&& s[25 + k] == luma_steps()[natural_index(k)]
            &&& s.subrange(89, 94) == seq![0xFFu8, 0xDB, 0, 67, 1]
            &&& s[94 + k] == chroma_steps()[natural_index(k)]
            &&& s.subrange(158, 163) == seq![0xFFu8, 0xC0, 0, 17, 8]
            &&& 256 * s[163] + s[164] == h
            &&& 256 * s[165] + s[166] == w
            &&& s.subrange(167, 177) == seq![3u8, 1, 0x22, 0, 2, 0x11, 1, 3, 0x11, 1]
        }),
{
    reveal(natural_index);
    reveal(luma_steps);
    reveal(chroma_steps);
    lemma_header_length(w, h, 0);
    let s = header_bytes(w, h, 0);
    assert(s.subrange(0, 6) =~= seq![0xFFu8, 0xD8, 0xFF, 0xE0, 0, 16]);
    assert(s.subrange(20, 25) =~= seq![0xFFu8, 0xDB, 0, 67, 0]);
    assert(s.subrange(89, 94) =~= seq![0xFFu8, 0xDB, 0, 67, 1]);
    assert(s.subrange(158, 163) =~= seq![0xFFu8, 0xC0, 0, 17, 8]);
    assert(s.subrange(167, 177) =~= seq![3u8, 1, 0x22, 0, 2, 0x11, 1, 3, 0x11, 1]);
}

/// The headers announce the codes: for each of the four tables its number, the counts of the codes
/// of each length, and the symbols; then which component uses which.
pub proof fn law_headers_announce_codes(w: int, h: int)
    ensures
        ({
            let s = header_bytes(w, h, 0);
            &&& s.subrange(177, 182) == seq![0xFFu8, 0xC4, 0, 31, 0x00]
            &&& s.subrange(182, 210) == DHT_DC_L_BITS@ + DHT_DC_L_VAL@
            &&& s.subrange(210, 215) == seq![0xFFu8, 0xC4, 0, 181, 0x10]
            &&& s.subrange(215, 393) == DHT_AC_L_BITS@ + DHT_AC_L_VAL@
            &&& s.subrange(393, 398) == seq![0xFFu8, 0xC4, 0, 31, 0x01]
            &&& s.subrange(398, 426) == DHT_DC_C_BITS@ + DHT_DC_C_VAL@
            &&& s.subrange(426, 431) == seq![0xFFu8, 0xC4, 0, 181, 0x11]
            &&& s.subrange(431, 609) == DHT_AC_C_BITS@ + DHT_AC_C_VAL@
            &&& s.subrange(609, 623) == seq![
                0xFFu8, 0xDA, 0, 12, 3, 1, 0x00, 2, 0x11, 3, 0x11, 0, 63, 0,
            ]
        }),
{
    lemma_header_length(w, h, 0);
    let s = header_bytes(w, h, 0);
    assert(s.subrange(177, 182) =~= seq![0xFFu8, 0xC4, 0, 31, 0x00]);
    assert(s.subrange(182, 210) =~= DHT_DC_L_BITS@ + DHT_DC_L_VAL@);
    assert(s.subrange(210, 215) =~= seq![0xFFu8, 0xC4, 0, 181, 0x10]);
    assert(s.subrange(215, 393) =~= DHT_AC_L_BITS@ + DHT_AC_L_VAL@);
    assert(s.subrange(393, 398) =~= seq![0xFFu8, 0xC4, 0, 31, 0x01]);
    assert(s.subrange(398, 426) =~= DHT_DC_C_BITS@ + DHT_DC_C_VAL@);
    assert(s.subrange(426, 431) =~= seq![0xFFu8, 0xC4, 0, 181, 0x11]);
    assert(s.subrange(431, 609) =~= DHT_AC_C_BITS@ + DHT_AC_C_VAL@);
    assert(s.subrange(609, 623) =~= seq![
        0xFFu8, 0xDA, 0, 12, 3, 1, 0x00, 2, 0x11, 3, 0x11, 0, 63, 0,
    ]);
}

/// A file is the headers without a restart interval, one scan from the first MCU row to the last,
/// and the end marker.
pub proof fn law_file(img: Image)
    ensures
        ({
            let (file, scan) = (jpeg_bytes(img), img.scan_bytes(0, (img.h + 15) / 16));
            &&& file.len() == 623 + scan.len() + 2
            &&& file.take(623) == header_bytes(img.w, img.h, 0)
            &&& file.subrange(623, 623 + scan.len() as int) == scan
            &&& file.skip(623 + scan.len() as int) == seq![0xFFu8, 0xD9]
        }),
{
    lemma_header_length(img.w, img.h, 0);
    let (file, scan) = (jpeg_bytes(img), img.scan_bytes(0, (img.h + 15) / 16));
    assert(file.take(623) =~= header_bytes(img.w, img.h, 0));
    assert(file.subrange(623, 623 + scan.len() as int) =~= scan);
    assert(file.skip(623 + scan.len() as int) =~= seq![0xFFu8, 0xD9]);
}

} // verus!
