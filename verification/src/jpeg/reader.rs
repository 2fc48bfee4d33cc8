//! What a decoder gets back from a scan: every quantized block.

use vstd::arithmetic::power2::{lemma2_to64, pow2};
use vstd::prelude::*;

use super::bits::{bit_value, entropy_bytes, octet, pack, pad, stuff, stuffed_byte};
use super::block::block_bits;
use super::decode::{complete_ac, complete_dc, decode_block, law_block_decoded};
use super::encode;
use super::fidelity::law_file;
use super::header::header_bytes;
use super::huffman::{
    law_chroma_ac_announced, law_chroma_dc_announced, law_luma_ac_announced, law_luma_dc_announced,
    Codes,
};
use super::jpeg_bytes;
use super::laws::law_blocks_small;
use super::scan::{encode_segment, lemma_small_codable, small, Image};
use super::tables::{
    chroma_ac, chroma_dc, luma_ac, luma_dc, DHT_AC_C_BITS, DHT_AC_C_VAL, DHT_AC_L_BITS,
    DHT_AC_L_VAL, DHT_DC_C_BITS, DHT_DC_C_VAL, DHT_DC_L_BITS, DHT_DC_L_VAL,
};

verus! {

/// Entropy-coded data without the byte that follows each 0xFF.
pub open spec fn unstuff(s: Seq<u8>) -> Seq<u8>
    decreases s.len(),
{
    if s.len() == 0 {
        Seq::empty()
    } else if s[0] == 0xFF && s.len() > 1 {
        seq![s[0]] + unstuff(s.skip(2))
    } else {
        seq![s[0]] + unstuff(s.skip(1))
    }
}

/// Bit `k` of a byte, counted from the most significant one.
pub open spec fn byte_bit(b: u8, k: int) -> bool {
    b as int / pow2((7 - k) as nat) as int % 2 == 1
}

/// The bits of a byte string.
pub open spec fn unpack(s: Seq<u8>) -> Seq<bool> {
    Seq::new(8 * s.len(), |i: int| byte_bit(s[i / 8], i % 8))
}

proof fn lemma_stuff_concat(a: Seq<u8>, b: Seq<u8>)
    ensures
        stuff(a + b) == stuff(a) + stuff(b),
    decreases b.len(),
{
    if b.len() == 0 {
        assert(a + b =~= a);
        assert(stuff(a) + stuff(b) =~= stuff(a));
    } else {
        assert((a + b).drop_last() =~= a + b.drop_last());
        lemma_stuff_concat(a, b.drop_last());
        assert(stuff(a + b) =~= stuff(a) + stuff(b));
    }
}

/// Byte stuffing can be undone.
pub proof fn law_unstuff(s: Seq<u8>)
    ensures
        unstuff(stuff(s)) == s,
    decreases s.len(),
{
    if s.len() > 0 {
        let (first, rest) = (seq![s[0]], s.skip(1));
        law_unstuff(rest);
        assert(s =~= first + rest);
        lemma_stuff_concat(first, rest);
        assert(stuff(first.drop_last()) == Seq::<u8>::empty());
        assert(stuff(first) =~= stuffed_byte(s[0]));
        assert(stuff(s).skip(stuffed_byte(s[0]).len() as int) =~= stuff(rest));
    }
}

/// Strings that are the same once stuffed are the same.
pub proof fn law_stuff_injective(a: Seq<u8>, b: Seq<u8>)
    requires
        stuff(a) == stuff(b),
    ensures
        a == b,
{
    law_unstuff(a);
    law_unstuff(b);
}

/// The bits of a byte are those that it was made of.
proof fn lemma_octet_bit(s: Seq<bool>, at: int, k: int)
    requires
        0 <= k < 8,
    ensures
        byte_bit(octet(s, at), k) == s[at + k],
{
    lemma2_to64();
    let o = octet(s, at) as int;
    assert(o == 128 * bit_value(s[at]) + 64 * bit_value(s[at + 1]) + 32 * bit_value(s[at + 2]) + 16
        * bit_value(s[at + 3]) + 8 * bit_value(s[at + 4]) + 4 * bit_value(s[at + 5]) + 2 * bit_value(
        s[at + 6],
    ) + bit_value(s[at + 7]));
    assert(o / 128 % 2 == bit_value(s[at]));
    assert(o / 64 % 2 == bit_value(s[at + 1]));
    assert(o / 32 % 2 == bit_value(s[at + 2]));
    assert(o / 16 % 2 == bit_value(s[at + 3]));
    assert(o / 8 % 2 == bit_value(s[at + 4]));
    assert(o / 4 % 2 == bit_value(s[at + 5]));
    assert(o / 2 % 2 == bit_value(s[at + 6]));
    assert(o / 1 % 2 == bit_value(s[at + 7]));
    assert(k == 0 || k == 1 || k == 2 || k == 3 || k == 4 || k == 5 || k == 6 || k == 7);
}

/// Whole bytes can be read back bit by bit.
pub proof fn law_unpack(s: Seq<bool>)
    requires
        s.len() % 8 == 0,
    ensures
        unpack(pack(s)) == s,
{
    assert forall|i: int| 0 <= i < s.len() implies unpack(pack(s))[i] == s[i] by {
        lemma_octet_bit(s, 8 * (i / 8), i % 8);
        assert(8 * (i / 8) + i % 8 == i);
    }
    assert(unpack(pack(s)) =~= s);
}

/// The bits of a scan, up to its padding, can be read back from its bytes.
pub proof fn law_entropy_bits(s: Seq<bool>)
    ensures
        unpack(unstuff(entropy_bytes(s))) == pad(s),
{
    law_unstuff(pack(pad(s)));
    assert(pad(s).len() % 8 == 0);
    law_unpack(pad(s));
}

/// Bit strings that give the same bytes are the same, up to their padding.
pub proof fn law_entropy_injective(s: Seq<bool>, t: Seq<bool>)
    requires
        entropy_bytes(s) == entropy_bytes(t),
    ensures
        pad(s) == pad(t),
{
    law_entropy_bits(s);
    law_entropy_bits(t);
}

/// Component of the `j`-th block of a scan: each MCU has four luma blocks, one Cb and one Cr block.
pub open spec fn component(j: int) -> int {
    if j % 6 < 4 {
        0
    } else {
        j % 6 - 3
    }
}

/// The DC codes that the headers announce for a component.
pub open spec fn dc_codes(c: int) -> Codes {
    if c == 0 {
        Codes { counts: DHT_DC_L_BITS@, symbols: DHT_DC_L_VAL@ }
    } else {
        Codes { counts: DHT_DC_C_BITS@, symbols: DHT_DC_C_VAL@ }
    }
}

/// The AC codes that the headers announce for a component.
pub open spec fn ac_codes(c: int) -> Codes {
    if c == 0 {
        Codes { counts: DHT_AC_L_BITS@, symbols: DHT_AC_L_VAL@ }
    } else {
        Codes { counts: DHT_AC_C_BITS@, symbols: DHT_AC_C_VAL@ }
    }
}

/// What a decoder makes of `s`: the blocks of a scan from the `j`-th to before the `n`-th, and the
/// bits that are left. `preds` holds the last DC coefficient of each component.
pub open spec fn decode_blocks(s: Seq<bool>, j: nat, n: nat, preds: Seq<int>) -> Option<
    (Seq<Seq<int>>, Seq<bool>),
>
    decreases n - j,
{
    if j >= n {
        Some((Seq::empty(), s))
    } else {
        let c = component(j as int);
        match decode_block(dc_codes(c), ac_codes(c), s, preds[c]) {
            None => None,
            Some((q, more)) => match decode_blocks(more, j + 1, n, preds.update(c, q[0])) {
                None => None,
                Some((qs, rest)) => Some((seq![q] + qs, rest)),
            },
        }
    }
}

/// What a decoder makes of the bytes of a scan of so many MCUs: its blocks, and the bits that are
/// left. It knows what the headers announce, and nothing else.
pub open spec fn decode_scan(bytes: Seq<u8>, mcus: nat) -> Option<(Seq<Seq<int>>, Seq<bool>)> {
    decode_blocks(unpack(unstuff(bytes)), 0, 6 * mcus, seq![0, 0, 0])
}

/// The `j`-th quantized block of a segment: MCU by MCU, the luma blocks from left to right and from
/// top to bottom, then Cb and Cr.
pub open spec fn scan_block(img: Image, top: int, j: int) -> Seq<int> {
    if j % 6 < 4 {
        img.luma_q(top, 4 * (j / 6) + j % 6)
    } else if j % 6 == 4 {
        img.cb_q(top, j / 6)
    } else {
        img.cr_q(top, j / 6)
    }
}

/// The quantized blocks of the first `mcus` MCUs of a segment.
pub open spec fn scan_blocks(img: Image, top: int, mcus: nat) -> Seq<Seq<int>> {
    Seq::new(6 * mcus, |j: int| scan_block(img, top, j))
}

/// The bits of the `j`-th block.
spec fn bits_at(img: Image, top: int, j: int) -> Seq<bool> {
    if j % 6 < 4 {
        img.luma_bits(top, 4 * (j / 6) + j % 6)
    } else if j % 6 == 4 {
        img.cb_bits(top, j / 6)
    } else {
        img.cr_bits(top, j / 6)
    }
}

/// The bits of the blocks from the `j`-th to before the `n`-th.
spec fn bits_from(img: Image, top: int, j: nat, n: nat) -> Seq<bool>
    decreases n - j,
{
    if j >= n {
        Seq::empty()
    } else {
        bits_at(img, top, j as int) + bits_from(img, top, j + 1, n)
    }
}

/// The bits of a segment, block by block.
proof fn lemma_bits_from(img: Image, top: int, m: nat, n: nat)
    requires
        m <= n,
    ensures
        img.segment_bits(top, n) == img.segment_bits(top, m) + bits_from(img, top, 6 * m, 6 * n),
    decreases n - m,
{
    if m == n {
        assert(img.segment_bits(top, m) + Seq::<bool>::empty() =~= img.segment_bits(top, m));
    } else {
        lemma_bits_from(img, top, m + 1, n);
        let (i, j, e) = (m as int, 6 * m, 6 * n);
        assert(j / 6 == m && j % 6 == 0);
        assert((j + 1) / 6 == m && (j + 1) % 6 == 1);
        assert((j + 2) / 6 == m && (j + 2) % 6 == 2);
        assert((j + 3) / 6 == m && (j + 3) % 6 == 3);
        assert((j + 4) / 6 == m && (j + 4) % 6 == 4);
        assert((j + 5) / 6 == m && (j + 5) % 6 == 5);
        let tail = bits_from(img, top, j + 6, e);
        let b5 = img.cr_bits(top, i) + tail;
        let b4 = img.cb_bits(top, i) + b5;
        let b3 = img.luma_bits(top, 4 * i + 3) + b4;
        let b2 = img.luma_bits(top, 4 * i + 2) + b3;
        let b1 = img.luma_bits(top, 4 * i + 1) + b2;
        assert(bits_from(img, top, j + 5, e) == b5);
        assert(bits_from(img, top, j + 4, e) == b4);
        assert(bits_from(img, top, j + 3, e) == b3);
        assert(bits_from(img, top, j + 2, e) == b2);
        assert(bits_from(img, top, j + 1, e) == b1);
        assert(bits_from(img, top, j, e) == img.luma_bits(top, 4 * i) + b1);
        assert(img.segment_bits(top, m + 1) == img.segment_bits(top, m) + img.mcu_bits(
            top,
            m as int,
        ));
        assert(img.segment_bits(top, m) + img.mcu_bits(top, m as int) + tail
            =~= img.segment_bits(top, m) + bits_from(img, top, j, 6 * n));
    }
}

/// The last DC coefficient of each component ahead of the `j`-th block.
spec fn preds_at(img: Image, top: int, j: int) -> Seq<int> {
    let (m, k) = (j / 6, j % 6);
    seq![
        img.luma_pred(
            top,
            4 * m + if k < 4 {
                k
            } else {
                4
            },
        ),
        img.cb_pred(
            top,
            m + if k < 5 {
                0int
            } else {
                1
            },
        ),
        img.cr_pred(top, m),
    ]
}

proof fn lemma_preds_step(img: Image, top: int, j: int)
    requires
        0 <= j,
    ensures
        preds_at(img, top, j + 1) == preds_at(img, top, j).update(
            component(j),
            scan_block(img, top, j)[0],
        ),
{
    let (m, k) = (j / 6, j % 6);
    if k < 5 {
        assert((j + 1) / 6 == m && (j + 1) % 6 == k + 1);
    } else {
        assert((j + 1) / 6 == m + 1 && (j + 1) % 6 == 0);
    }
    assert(preds_at(img, top, j + 1) =~= preds_at(img, top, j).update(
        component(j),
        scan_block(img, top, j)[0],
    ));
}

proof fn lemma_luma_decoded(q: Seq<int>, prev: int, rest: Seq<bool>)
    requires
        small(q),
        -256 <= prev <= 256,
    ensures
        decode_block(
            dc_codes(0),
            ac_codes(0),
            block_bits(q, prev, luma_dc(), luma_ac()) + rest,
            prev,
        ) == Some((q, rest)),
{
    lemma_small_codable(q, prev);
    law_luma_dc_announced();
    law_luma_ac_announced();
    assert(complete_dc(luma_dc())) by {
        reveal(luma_dc);
    }
    assert(complete_ac(luma_ac())) by {
        reveal(luma_ac);
    }
    law_block_decoded(q, prev, luma_dc(), dc_codes(0), luma_ac(), ac_codes(0), rest);
}

proof fn lemma_chroma_decoded(q: Seq<int>, prev: int, c: int, rest: Seq<bool>)
    requires
        small(q),
        -256 <= prev <= 256,
        c != 0,
    ensures
        decode_block(
            dc_codes(c),
            ac_codes(c),
            block_bits(q, prev, chroma_dc(), chroma_ac()) + rest,
            prev,
        ) == Some((q, rest)),
{
    lemma_small_codable(q, prev);
    law_chroma_dc_announced();
    law_chroma_ac_announced();
    assert(complete_dc(chroma_dc())) by {
        reveal(chroma_dc);
    }
    assert(complete_ac(chroma_ac())) by {
        reveal(chroma_ac);
    }
    law_block_decoded(q, prev, chroma_dc(), dc_codes(c), chroma_ac(), ac_codes(c), rest);
}

/// One block of a scan is read back.
proof fn lemma_block_step(img: Image, top: int, j: int, rest: Seq<bool>)
    requires
        0 <= j,
    ensures
        decode_block(
            dc_codes(component(j)),
            ac_codes(component(j)),
            bits_at(img, top, j) + rest,
            preds_at(img, top, j)[component(j)],
        ) == Some((scan_block(img, top, j), rest)),
{
    let (m, k) = (j / 6, j % 6);
    law_blocks_small(img, top, m);
    law_blocks_small(img, top, m - 1);
    if k < 4 {
        let t = 4 * m + k;
        reveal(Image::luma_bits);
        assert(small(img.luma_q(top, t)));
        assert(small(img.luma_q(top, t - 1)));
        assert(-256 <= img.luma_q(top, t - 1)[0] <= 256);
        lemma_luma_decoded(img.luma_q(top, t), img.luma_pred(top, t), rest);
    } else if k == 4 {
        reveal(Image::cb_bits);
        assert(-256 <= img.cb_q(top, m - 1)[0] <= 256);
        lemma_chroma_decoded(img.cb_q(top, m), img.cb_pred(top, m), 1, rest);
    } else {
        reveal(Image::cr_bits);
        assert(-256 <= img.cr_q(top, m - 1)[0] <= 256);
        lemma_chroma_decoded(img.cr_q(top, m), img.cr_pred(top, m), 2, rest);
    }
}

proof fn lemma_blocks_decoded(img: Image, top: int, j: nat, n: nat, rest: Seq<bool>)
    requires
        j <= n,
    ensures
        decode_blocks(bits_from(img, top, j, n) + rest, j, n, preds_at(img, top, j as int))
            == Some((Seq::new((n - j) as nat, |i: int| scan_block(img, top, j + i)), rest)),
    decreases n - j,
{
    let s = bits_from(img, top, j, n) + rest;
    let blocks = Seq::new((n - j) as nat, |i: int| scan_block(img, top, j + i));
    if j == n {
        assert(s =~= rest);
        assert(blocks =~= Seq::empty());
    } else {
        let more = bits_from(img, top, j + 1, n) + rest;
        assert(s =~= bits_at(img, top, j as int) + more);
        lemma_block_step(img, top, j as int, more);
        lemma_preds_step(img, top, j as int);
        lemma_blocks_decoded(img, top, j + 1, n, rest);
        let next = Seq::new((n - (j + 1)) as nat, |i: int| scan_block(img, top, j + 1 + i));
        assert(blocks =~= seq![scan_block(img, top, j as int)] + next);
    }
}

/// A segment can be decoded: with the announced codes alone a decoder gets every quantized block of
/// every MCU of the segment back from its bytes. Fewer than eight bits are left, and all of them are
/// 1.
pub proof fn law_scan_decoded(img: Image, top: int, end: int)
    ensures
        match decode_scan(img.scan_bytes(top, end), img.mcu_count(top, end)) {
            Some((blocks, left)) => {
                &&& blocks == scan_blocks(img, top, img.mcu_count(top, end))
                &&& left.len() < 8
                &&& forall|i: int| 0 <= i < left.len() ==> #[trigger] left[i]
            },
            None => false,
        },
{
    let n = img.mcu_count(top, end);
    let s = img.segment_bits(top, n);
    let padding = Seq::new(((8 - s.len() % 8) % 8) as nat, |i: int| true);
    law_entropy_bits(s);
    lemma_bits_from(img, top, 0, n);
    assert(s =~= bits_from(img, top, 0, 6 * n));
    assert(preds_at(img, top, 0) =~= seq![0, 0, 0]);
    lemma_blocks_decoded(img, top, 0, 6 * n, padding);
    assert(scan_blocks(img, top, n) =~= Seq::new(
        (6 * n) as nat,
        |i: int| scan_block(img, top, 0 + i),
    ));
}

/// Segments tell frames apart: frames of one size whose segments consist of the same bytes have the
/// same quantized coefficients in every block of the segment.
pub proof fn law_scan_decodable(a: Image, b: Image, top: int, end: int)
    requires
        a.w == b.w,
        a.scan_bytes(top, end) == b.scan_bytes(top, end),
    ensures
        scan_blocks(a, top, a.mcu_count(top, end)) == scan_blocks(b, top, b.mcu_count(top, end)),
{
    law_scan_decoded(a, top, end);
    law_scan_decoded(b, top, end);
}

/// What `encode_segment` writes: from its bytes a decoder that knows the headers gets back every
/// quantized block of every MCU in the rows asked for. What lies behind them is not touched.
pub proof fn law_encode_segment(
    fb: &[u32],
    w: usize,
    h: usize,
    mcy0: usize,
    mcy1: usize,
    out: &mut [u8],
    n: usize,
)
    requires
        mcy0 <= mcy1,
        old(out)@.len() <= usize::MAX,
        call_ensures(encode_segment, (fb, w, h, mcy0, mcy1, out), Some(n)),
    ensures
        n <= old(out)@.len(),
        final(out)@.skip(n as int) == old(out)@.skip(n as int),
        ({
            let img = Image { words: fb@, w: w as int, h: h as int };
            let mcus = ((mcy1 - mcy0) * ((w + 15) / 16)) as nat;
            match decode_scan(final(out)@.take(n as int), mcus) {
                Some((blocks, left)) => {
                    &&& blocks == scan_blocks(img, mcy0 as int, mcus)
                    &&& left.len() < 8
                    &&& forall|i: int| 0 <= i < left.len() ==> #[trigger] left[i]
                },
                None => false,
            }
        }),
{
    let img = Image { words: fb@, w: w as int, h: h as int };
    let scan = img.scan_bytes(mcy0 as int, mcy1 as int);
    assert(final(out)@.take(n as int) =~= scan);
    assert(final(out)@.skip(n as int) =~= old(out)@.skip(n as int));
    assert(mcy0 == mcy1 ==> (mcy1 - mcy0) * ((w + 15) / 16) == 0) by (nonlinear_arith);
    assert(0 <= (mcy1 - mcy0) * ((w + 15) / 16)) by (nonlinear_arith)
        requires
            mcy0 <= mcy1,
            0 <= w,
    ;
    law_scan_decoded(img, mcy0 as int, mcy1 as int);
}

/// What `encode` writes: the headers, a scan that holds every quantized block of the frame, and the
/// end marker.
pub proof fn law_encode(fb: &[u32], w: usize, h: usize, out: &mut [u8], n: usize)
    requires
        old(out)@.len() <= usize::MAX,
        call_ensures(encode, (fb, w, h, out), Some(n)),
    ensures
        625 <= n <= old(out)@.len(),
        final(out)@.take(623) == header_bytes(w as int, h as int, 0),
        final(out)@[n - 2] == 0xFF,
        final(out)@[n - 1] == 0xD9,
        final(out)@.skip(n as int) == old(out)@.skip(n as int),
        ({
            let img = Image { words: fb@, w: w as int, h: h as int };
            let mcus = (((h + 15) / 16) * ((w + 15) / 16)) as nat;
            match decode_scan(final(out)@.subrange(623, n - 2), mcus) {
                Some((blocks, left)) => {
                    &&& blocks == scan_blocks(img, 0, mcus)
                    &&& left.len() < 8
                    &&& forall|i: int| 0 <= i < left.len() ==> #[trigger] left[i]
                },
                None => false,
            }
        }),
{
    let img = Image { words: fb@, w: w as int, h: h as int };
    let rows = (h + 15) / 16;
    let (file, scan) = (jpeg_bytes(img), img.scan_bytes(0, rows));
    law_file(img);
    let done = final(out)@;
    assert(done.take(623) =~= file.take(623));
    assert(done.subrange(623, n - 2) =~= file.subrange(623, 623 + scan.len() as int));
    assert(done[n - 2] == file.skip(623 + scan.len() as int)[0]);
    assert(done[n - 1] == file.skip(623 + scan.len() as int)[1]);
    assert(done.skip(n as int) =~= old(out)@.skip(n as int));
    assert((rows - 0) * ((w + 15) / 16) == rows * ((w + 15) / 16));
    assert(rows == 0 ==> rows * ((w + 15) / 16) == 0) by (nonlinear_arith);
    assert(0 <= rows * ((w + 15) / 16)) by (nonlinear_arith)
        requires
            0 <= rows,
            0 <= w,
    ;
    law_scan_decoded(img, 0, rows);
}

} // verus!
