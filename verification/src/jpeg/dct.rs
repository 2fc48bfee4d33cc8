//! Forward 8x8 DCT in fixed point: the Loeffler-Ligtenberg-Moschytz flowgraph, a column pass and
//! then a row pass. The result is the JPEG-normalized DCT scaled by 8.

use vstd::prelude::*;

verus! {

/// Fraction bits of the constants.
pub const C_BITS: u32 = 13;

/// Extra fraction bits that the column pass leaves for the row pass.
pub const P1_BITS: u32 = 2;

// FIX(c) = round(c * 2^C_BITS)
const F_0_298631336: i32 = 2446;

const F_0_390180644: i32 = 3196;

const F_0_541196100: i32 = 4433;

const F_0_765366865: i32 = 6270;

const F_0_899976223: i32 = 7373;

const F_1_175875602: i32 = 9633;

const F_1_501321110: i32 = 12299;

const F_1_847759065: i32 = 15137;

const F_1_961570560: i32 = 16069;

const F_2_053119869: i32 = 16819;

const F_2_562915447: i32 = 20995;

const F_3_072711026: i32 = 25172;

/// Samples up to this magnitude keep every intermediate value of [`fdct`] within 32 bits. A block
/// of larger samples of the worst signs does not.
pub const SAMPLE_LIMIT: i32 = 799;

/// Inputs of one line up to this magnitude keep its intermediate values within 32 bits.
pub const LINE_LIMIT: i32 = 25568;

/// `k`-th output of the one-dimensional transform of `d` before rounding: `d` times a row of the
/// DCT matrix with entries `2^13 * sqrt(2) * cos((2j + 1) * k * pi / 16)` in fixed point (for
/// `k = 0`: `2^13`).
pub open spec fn dct_sum(k: int, d: Seq<i32>) -> int {
    if k == 0 {
        8192 * d[0] + 8192 * d[1] + 8192 * d[2] + 8192 * d[3] + 8192 * d[4] + 8192 * d[5] + 8192
            * d[6] + 8192 * d[7]
    } else if k == 1 {
        11363 * d[0] + 9633 * d[1] + 6437 * d[2] + 2260 * d[3] - 2260 * d[4] - 6437 * d[5] - 9633
            * d[6] - 11363 * d[7]
    } else if k == 2 {
        10703 * d[0] + 4433 * d[1] - 4433 * d[2] - 10703 * d[3] - 10703 * d[4] - 4433 * d[5] + 4433
            * d[6] + 10703 * d[7]
    } else if k == 3 {
        9633 * d[0] - 2259 * d[1] - 11362 * d[2] - 6436 * d[3] + 6436 * d[4] + 11362 * d[5] + 2259
            * d[6] - 9633 * d[7]
    } else if k == 4 {
        8192 * d[0] - 8192 * d[1] - 8192 * d[2] + 8192 * d[3] + 8192 * d[4] - 8192 * d[5] - 8192
            * d[6] + 8192 * d[7]
    } else if k == 5 {
        6437 * d[0] - 11362 * d[1] + 2261 * d[2] + 9633 * d[3] - 9633 * d[4] - 2261 * d[5] + 11362
            * d[6] - 6437 * d[7]
    } else if k == 6 {
        4433 * d[0] - 10704 * d[1] + 10704 * d[2] - 4433 * d[3] - 4433 * d[4] + 10704 * d[5] - 10704
            * d[6] + 4433 * d[7]
    } else {
        2260 * d[0] - 6436 * d[1] + 9633 * d[2] - 11363 * d[3] + 11363 * d[4] - 9633 * d[5] + 6436
            * d[6] - 2260 * d[7]
    }
}

/// `x / 2^n`, rounded to the nearest integer, halves up, for the shifts in use.
pub open spec fn round_shift(x: int, n: u32) -> int {
    if n == 2 {
        (x + 2) / 4
    } else if n == 11 {
        (x + 1024) / 2048
    } else {
        (x + 16384) / 32768
    }
}

/// `k`-th output of the one-dimensional transform of `d` at the scale that `n` leaves.
pub open spec fn dct_line(k: int, d: Seq<i32>, n: u32) -> int {
    round_shift(dct_sum(k, d), n)
}

/// Column `c` of a block.
pub open spec fn column(b: Seq<i32>, c: int) -> Seq<i32> {
    Seq::new(8, |j: int| b[8 * j + c])
}

/// Row `r` of a block.
pub open spec fn row(b: Seq<i32>, r: int) -> Seq<i32> {
    Seq::new(8, |j: int| b[8 * r + j])
}

/// Every column transformed, at scale `2^P1_BITS`.
pub open spec fn column_pass(b: Seq<i32>) -> Seq<i32> {
    Seq::new(64, |i: int| dct_line(i / 8, column(b, i % 8), 11) as i32)
}

/// Every row transformed, and the extra scale removed.
pub open spec fn row_pass(b: Seq<i32>) -> Seq<i32> {
    Seq::new(64, |i: int| dct_line(i % 8, row(b, i / 8), 15) as i32)
}

/// The two-dimensional transform of a block.
#[verifier::opaque]
pub open spec fn fdct_of(b: Seq<i32>) -> Seq<i32> {
    row_pass(column_pass(b))
}

pub open spec fn bounded(s: Seq<i32>, limit: int) -> bool {
    forall|i: int| 0 <= i < s.len() ==> -limit <= #[trigger] s[i] <= limit
}

/// No output exceeds 32 times (column pass) or twice (row pass) the largest input.
pub proof fn lemma_line_bound(k: int, d: Seq<i32>, limit: int)
    requires
        0 <= k < 8,
        d.len() == 8,
        0 <= limit,
        bounded(d, limit),
    ensures
        -65536 * limit <= dct_sum(k, d) <= 65536 * limit,
        -32 * limit <= dct_line(k, d, 11) <= 32 * limit,
        -2 * limit <= dct_line(k, d, 15) <= 2 * limit,
{
    assert(-limit <= d[0] <= limit);
    assert(-limit <= d[1] <= limit);
    assert(-limit <= d[2] <= limit);
    assert(-limit <= d[3] <= limit);
    assert(-limit <= d[4] <= limit);
    assert(-limit <= d[5] <= limit);
    assert(-limit <= d[6] <= limit);
    assert(-limit <= d[7] <= limit);
}

/// `x / 2^n`, rounded to the nearest integer, halves up.
fn descale(x: i32, n: u32) -> (r: i32)
    requires
        n == 2 || n == 11 || n == 15,
        x + 16384 <= i32::MAX,
    ensures
        r == round_shift(x as int, n),
{
    assert(1i32 << 1u32 == 2 && 1i32 << 10u32 == 1024 && 1i32 << 14u32 == 16384) by (bit_vector);
    let y: i32 = x + (1i32 << (n - 1));
    assert(y >> 2u32 == y / 4 && y >> 11u32 == y / 2048 && y >> 15u32 == y / 32768) by (bit_vector);
    y >> n
}

/// Shift of one pass.
pub open spec fn pass_shift(first: bool) -> u32 {
    if first {
        11
    } else {
        15
    }
}

/// Even half of the flowgraph (3 multiplications): outputs 0, 2, 4 and 6 from the sums of
/// opposite inputs.
fn even_part(tmp0: i32, tmp1: i32, tmp2: i32, tmp3: i32, first: bool) -> (o: (i32, i32, i32, i32))
    requires
        -2 * LINE_LIMIT <= tmp0 <= 2 * LINE_LIMIT,
        -2 * LINE_LIMIT <= tmp1 <= 2 * LINE_LIMIT,
        -2 * LINE_LIMIT <= tmp2 <= 2 * LINE_LIMIT,
        -2 * LINE_LIMIT <= tmp3 <= 2 * LINE_LIMIT,
    ensures
        o.0 == round_shift(8192 * (tmp0 + tmp1 + tmp2 + tmp3), pass_shift(first)),
        o.1 == round_shift(
            10703 * tmp0 + 4433 * tmp1 - 4433 * tmp2 - 10703 * tmp3,
            pass_shift(first),
        ),
        o.2 == round_shift(8192 * (tmp0 - tmp1 - tmp2 + tmp3), pass_shift(first)),
        o.3 == round_shift(
            4433 * tmp0 - 10704 * tmp1 + 10704 * tmp2 - 4433 * tmp3,
            pass_shift(first),
        ),
{
    let n: u32 = if first {
        C_BITS - P1_BITS
    } else {
        C_BITS + P1_BITS
    };
    let (tmp10, tmp13) = (tmp0 + tmp3, tmp0 - tmp3);
    let (tmp11, tmp12) = (tmp1 + tmp2, tmp1 - tmp2);
    let s0: i32 = tmp10 + tmp11;
    let s4: i32 = tmp10 - tmp11;
    let o0: i32 = if first {
        s0 * 4
    } else {
        descale(s0, P1_BITS)
    };
    let o4: i32 = if first {
        s4 * 4
    } else {
        descale(s4, P1_BITS)
    };
    let z1: i32 = (tmp12 + tmp13) * F_0_541196100;
    let e2: i32 = z1 + tmp13 * F_0_765366865;
    let e6: i32 = z1 - tmp12 * F_1_847759065;
    assert(e2 == 10703 * tmp0 + 4433 * tmp1 - 4433 * tmp2 - 10703 * tmp3);
    assert(e6 == 4433 * tmp0 - 10704 * tmp1 + 10704 * tmp2 - 4433 * tmp3);
    (o0, descale(e2, n), o4, descale(e6, n))
}

/// Odd half of the flowgraph (9 multiplications): outputs 1, 3, 5 and 7 from the differences of
/// opposite inputs.
fn odd_part(tmp4: i32, tmp5: i32, tmp6: i32, tmp7: i32, first: bool) -> (o: (i32, i32, i32, i32))
    requires
        -2 * LINE_LIMIT <= tmp4 <= 2 * LINE_LIMIT,
        -2 * LINE_LIMIT <= tmp5 <= 2 * LINE_LIMIT,
        -2 * LINE_LIMIT <= tmp6 <= 2 * LINE_LIMIT,
        -2 * LINE_LIMIT <= tmp7 <= 2 * LINE_LIMIT,
    ensures
        o.0 == round_shift(
            11363 * tmp7 + 9633 * tmp6 + 6437 * tmp5 + 2260 * tmp4,
            pass_shift(first),
        ),
        o.1 == round_shift(
            9633 * tmp7 - 2259 * tmp6 - 11362 * tmp5 - 6436 * tmp4,
            pass_shift(first),
        ),
        o.2 == round_shift(
            6437 * tmp7 - 11362 * tmp6 + 2261 * tmp5 + 9633 * tmp4,
            pass_shift(first),
        ),
        o.3 == round_shift(
            2260 * tmp7 - 6436 * tmp6 + 9633 * tmp5 - 11363 * tmp4,
            pass_shift(first),
        ),
{
    let n: u32 = if first {
        C_BITS - P1_BITS
    } else {
        C_BITS + P1_BITS
    };
    let (p1, p2) = (tmp4 + tmp7, tmp5 + tmp6);
    let (p3, p4) = (tmp4 + tmp6, tmp5 + tmp7);
    let z5: i32 = (p3 + p4) * F_1_175875602;
    let q1: i32 = -p1 * F_0_899976223;
    let q2: i32 = -p2 * F_2_562915447;
    let q3: i32 = -p3 * F_1_961570560 + z5;
    let q4: i32 = -p4 * F_0_390180644 + z5;
    let e7: i32 = tmp4 * F_0_298631336 + q1 + q3;
    let e5: i32 = tmp5 * F_2_053119869 + q2 + q4;
    let e3: i32 = tmp6 * F_3_072711026 + q2 + q3;
    let e1: i32 = tmp7 * F_1_501321110 + q1 + q4;
    assert(e1 == 11363 * tmp7 + 9633 * tmp6 + 6437 * tmp5 + 2260 * tmp4);
    assert(e3 == 9633 * tmp7 - 2259 * tmp6 - 11362 * tmp5 - 6436 * tmp4);
    assert(e5 == 6437 * tmp7 - 11362 * tmp6 + 2261 * tmp5 + 9633 * tmp4);
    assert(e7 == 2260 * tmp7 - 6436 * tmp6 + 9633 * tmp5 - 11363 * tmp4);
    (descale(e1, n), descale(e3, n), descale(e5, n), descale(e7, n))
}

/// One line through the flowgraph. `first` tells the column pass from the row pass.
fn transform(d: &[i32; 8], first: bool) -> (o: [i32; 8])
    requires
        bounded(d@, LINE_LIMIT as int),
    ensures
        forall|k: int| 0 <= k < 8 ==> #[trigger] o@[k] == dct_line(k, d@, pass_shift(first)),
{
    let (d0, d1, d2, d3) = (d[0], d[1], d[2], d[3]);
    let (d4, d5, d6, d7) = (d[4], d[5], d[6], d[7]);
    let (e0, e2, e4, e6) = even_part(d0 + d7, d1 + d6, d2 + d5, d3 + d4, first);
    let (e1, e3, e5, e7) = odd_part(d3 - d4, d2 - d5, d1 - d6, d0 - d7, first);
    let o = [e0, e1, e2, e3, e4, e5, e6, e7];
    proof {
        let n = pass_shift(first);
        assert(o@[0] == dct_line(0, d@, n));
        assert(o@[1] == dct_line(1, d@, n));
        assert(o@[2] == dct_line(2, d@, n));
        assert(o@[3] == dct_line(3, d@, n));
        assert(o@[4] == dct_line(4, d@, n));
        assert(o@[5] == dct_line(5, d@, n));
        assert(o@[6] == dct_line(6, d@, n));
        assert(o@[7] == dct_line(7, d@, n));
    }
    o
}

/// In-place forward 8x8 DCT.
#[verifier::rlimit(40)]
pub fn fdct(b: &mut [i32; 64])
    requires
        bounded(old(b)@, SAMPLE_LIMIT as int),
    ensures
        final(b)@ == fdct_of(old(b)@),
{
    reveal(fdct_of);
    let ghost samples = b@;
    let mut c: usize = 0;
    while c < 8
        invariant
            c <= 8,
            bounded(samples, SAMPLE_LIMIT as int),
            samples.len() == 64,
            forall|i: int|
                0 <= i < 64 ==> #[trigger] b@[i] == if i % 8 < c {
                    column_pass(samples)[i]
                } else {
                    samples[i]
                },
        decreases 8 - c,
    {
        let d: [i32; 8] = [
            b[c],
            b[8 + c],
            b[16 + c],
            b[24 + c],
            b[32 + c],
            b[40 + c],
            b[48 + c],
            b[56 + c],
        ];
        assert(d@ =~= column(samples, c as int));
        assert(bounded(d@, SAMPLE_LIMIT as int)) by {
            assert forall|j: int| 0 <= j < 8 implies -SAMPLE_LIMIT <= #[trigger] d@[j]
                <= SAMPLE_LIMIT by {
                assert(d@[j] == samples[8 * j + c]);
            }
        }
        let o = transform(&d, true);
        proof {
            assert forall|k: int| 0 <= k < 8 implies #[trigger] o@[k] == column_pass(samples)[8 * k
                + c] by {
                lemma_line_bound(k, d@, SAMPLE_LIMIT as int);
            }
        }
        let ghost b0 = b@;
        let mut k: usize = 0;
        while k < 8
            invariant
                k <= 8,
                c < 8,
                b0.len() == 64,
                forall|j: int| 0 <= j < 8 ==> #[trigger] o@[j] == column_pass(samples)[8 * j + c],
                forall|i: int|
                    0 <= i < 64 ==> #[trigger] b@[i] == if i % 8 == c && i / 8 < k {
                        column_pass(samples)[i]
                    } else {
                        b0[i]
                    },
            decreases 8 - k,
        {
            b[8 * k + c] = o[k];
            k = k + 1;
        }
        c = c + 1;
    }
    let ghost mid = b@;
    assert(mid =~= column_pass(samples));
    assert(bounded(mid, LINE_LIMIT as int)) by {
        assert forall|i: int| 0 <= i < 64 implies -LINE_LIMIT <= #[trigger] mid[i]
            <= LINE_LIMIT by {
            let d = column(samples, i % 8);
            assert forall|j: int| 0 <= j < 8 implies -SAMPLE_LIMIT <= #[trigger] d[j]
                <= SAMPLE_LIMIT by {
                assert(d[j] == samples[8 * j + i % 8]);
            }
            lemma_line_bound(i / 8, d, SAMPLE_LIMIT as int);
        }
    }
    let mut r: usize = 0;
    while r < 8
        invariant
            r <= 8,
            mid.len() == 64,
            bounded(mid, LINE_LIMIT as int),
            forall|i: int|
                0 <= i < 64 ==> #[trigger] b@[i] == if i / 8 < r {
                    row_pass(mid)[i]
                } else {
                    mid[i]
                },
        decreases 8 - r,
    {
        let o0: usize = r * 8;
        let d: [i32; 8] = [
            b[o0],
            b[o0 + 1],
            b[o0 + 2],
            b[o0 + 3],
            b[o0 + 4],
            b[o0 + 5],
            b[o0 + 6],
            b[o0 + 7],
        ];
        assert(d@ =~= row(mid, r as int));
        assert(bounded(d@, LINE_LIMIT as int)) by {
            assert forall|j: int| 0 <= j < 8 implies -LINE_LIMIT <= #[trigger] d@[j]
                <= LINE_LIMIT by {
                assert(d@[j] == mid[8 * r + j]);
            }
        }
        let o = transform(&d, false);
        proof {
            assert forall|k: int| 0 <= k < 8 implies #[trigger] o@[k] == row_pass(mid)[8 * r
                + k] by {
                lemma_line_bound(k, d@, LINE_LIMIT as int);
            }
        }
        let ghost b0 = b@;
        let mut k: usize = 0;
        while k < 8
            invariant
                k <= 8,
                r < 8,
                o0 == 8 * r,
                b0.len() == 64,
                forall|j: int| 0 <= j < 8 ==> #[trigger] o@[j] == row_pass(mid)[8 * r + j],
                forall|i: int|
                    0 <= i < 64 ==> #[trigger] b@[i] == if i / 8 == r && i % 8 < k {
                        row_pass(mid)[i]
                    } else {
                        b0[i]
                    },
            decreases 8 - k,
        {
            b[o0 + k] = o[k];
            k = k + 1;
        }
        r = r + 1;
    }
    assert(b@ =~= row_pass(mid));
}

} // verus!
