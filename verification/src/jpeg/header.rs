//! JFIF headers.

use vstd::prelude::*;

use super::block::{natural_index, zigzag_index};
use super::tables::{
    DHT_AC_C_BITS, DHT_AC_C_VAL, DHT_AC_L_BITS, DHT_AC_L_VAL, DHT_DC_C_BITS, DHT_DC_C_VAL,
    DHT_DC_L_BITS, DHT_DC_L_VAL, QUANT_C, QUANT_L,
};
use crate::bytes::{lemma_splice_concat, lemma_splice_empty, splice};

verus! {

/// The second-lowest byte of `x`.
pub open spec fn high_byte(x: int) -> u8 {
    (x / 256 % 256) as u8
}

/// The lowest byte of `x`.
pub open spec fn low_byte(x: int) -> u8 {
    (x % 256) as u8
}

/// A marker segment: marker, big-endian length of what follows the marker, body.
pub open spec fn segment(marker: u8, body: Seq<u8>) -> Seq<u8> {
    seq![0xFFu8, marker, high_byte(body.len() as int + 2), low_byte(body.len() as int + 2)] + body
}

/// Body of the APP0 segment: "JFIF", version 1.1, no density, no thumbnail.
pub open spec fn jfif() -> Seq<u8> {
    seq![0x4Au8, 0x46, 0x49, 0x46, 0, 1, 1, 0, 0, 1, 0, 1, 0, 0]
}

/// Body of a quantization table segment: table number, then the steps in zigzag order.
pub open spec fn quant_table(id: u8, steps: Seq<u8>) -> Seq<u8> {
    seq![id] + Seq::new(64, |k: int| steps[natural_index(k)])
}

/// Body of the frame segment: 8-bit baseline, three components, 2x2 luma sampling.
pub open spec fn frame(w: int, h: int) -> Seq<u8> {
    seq![
        8u8,
        high_byte(h),
        low_byte(h),
        high_byte(w),
        low_byte(w),
        3,
        1,
        0x22,
        0,
        2,
        0x11,
        1,
        3,
        0x11,
        1,
    ]
}

/// Body of a Huffman table segment: class and number, code counts by length, symbols.
pub open spec fn huffman_table(cls: u8, bits: Seq<u8>, vals: Seq<u8>) -> Seq<u8> {
    seq![cls] + bits + vals
}

/// Body of the scan segment: the components with their Huffman tables, the full spectrum.
pub open spec fn scan_header() -> Seq<u8> {
    seq![3u8, 1, 0x00, 2, 0x11, 3, 0x11, 0, 0x3F, 0]
}

/// Restart interval segment; none for interval 0.
pub open spec fn restart_segment(ri: int) -> Seq<u8> {
    if ri == 0 {
        Seq::empty()
    } else {
        segment(0xDD, seq![high_byte(ri), low_byte(ri)])
    }
}

/// All headers of a `w` x `h` image, up to where the scan begins.
pub open spec fn header_bytes(w: int, h: int, ri: int) -> Seq<u8> {
    seq![0xFFu8, 0xD8] + segment(0xE0, jfif()) + restart_segment(ri) + segment(
        0xDB,
        quant_table(0, QUANT_L@),
    ) + segment(0xDB, quant_table(1, QUANT_C@)) + segment(0xC0, frame(w, h)) + segment(
        0xC4,
        huffman_table(0x00, DHT_DC_L_BITS@, DHT_DC_L_VAL@),
    ) + segment(0xC4, huffman_table(0x10, DHT_AC_L_BITS@, DHT_AC_L_VAL@)) + segment(
        0xC4,
        huffman_table(0x01, DHT_DC_C_BITS@, DHT_DC_C_VAL@),
    ) + segment(0xC4, huffman_table(0x11, DHT_AC_C_BITS@, DHT_AC_C_VAL@)) + segment(
        0xDA,
        scan_header(),
    )
}

/// Length of [`header_bytes`].
pub open spec fn header_length(ri: int) -> nat {
    if ri == 0 {
        623
    } else {
        629
    }
}

/// The headers have a fixed length, which only a restart interval changes.
pub proof fn lemma_header_length(w: int, h: int, ri: int)
    ensures
        header_bytes(w, h, ri).len() == header_length(ri),
{
}

/// Store a byte at `*p`, if there is room, and advance.
pub fn w8(out: &mut [u8], p: &mut usize, b: u8)
    requires
        *old(p) < usize::MAX,
    ensures
        final(out)@ == splice(old(out)@, *old(p) as int, seq![b]),
        *final(p) == *old(p) + 1,
{
    if *p < out.len() {
        out[*p] = b;
    }
    *p = *p + 1;
    assert(out@ =~= splice(old(out)@, *old(p) as int, seq![b]));
}

/// Append every byte of `s`.
fn append_all(out: &mut [u8], p: &mut usize, s: &[u8])
    requires
        *old(p) + s@.len() <= usize::MAX,
    ensures
        final(out)@ == splice(old(out)@, *old(p) as int, s@),
        *final(p) == *old(p) + s@.len(),
{
    let mut i: usize = 0;
    proof {
        lemma_splice_empty(out@, *p as int);
        assert(s@.take(0) =~= Seq::<u8>::empty());
    }
    while i < s.len()
        invariant
            i <= s@.len(),
            *old(p) + s@.len() <= usize::MAX,
            *p == *old(p) + i,
            out@ == splice(old(out)@, *old(p) as int, s@.take(i as int)),
        decreases s@.len() - i,
    {
        w8(out, p, s[i]);
        proof {
            lemma_splice_concat(old(out)@, *old(p) as int, s@.take(i as int), seq![s@[i as int]]);
            assert(s@.take(i as int) + seq![s@[i as int]] =~= s@.take(i + 1));
        }
        i = i + 1;
    }
    assert(s@.take(s@.len() as int) =~= s@);
}

/// Append a marker segment.
pub fn seg(out: &mut [u8], p: &mut usize, marker: u8, body: &[u8])
    requires
        *old(p) + body@.len() + 4 <= usize::MAX,
    ensures
        final(out)@ == splice(old(out)@, *old(p) as int, segment(marker, body@)),
        *final(p) == *old(p) + segment(marker, body@).len(),
{
    let len: usize = body.len() + 2;
    let head: [u8; 4] = [0xFF, marker, (len / 256 % 256) as u8, (len % 256) as u8];
    append_all(out, p, &head);
    append_all(out, p, body);
    proof {
        assert(head@ + body@ =~= segment(marker, body@));
        lemma_splice_concat(old(out)@, *old(p) as int, head@, body@);
    }
}

/// Append a Huffman table segment.
pub fn write_dht(out: &mut [u8], p: &mut usize, cls: u8, bits: &[u8; 16], vals: &[u8])
    requires
        *old(p) + vals@.len() + 21 <= usize::MAX,
    ensures
        final(out)@ == splice(
            old(out)@,
            *old(p) as int,
            segment(0xC4, huffman_table(cls, bits@, vals@)),
        ),
        *final(p) == *old(p) + segment(0xC4, huffman_table(cls, bits@, vals@)).len(),
{
    let len: usize = 2 + 1 + 16 + vals.len();
    let head: [u8; 5] = [0xFF, 0xC4, (len / 256 % 256) as u8, (len % 256) as u8, cls];
    append_all(out, p, &head);
    append_all(out, p, bits);
    append_all(out, p, vals);
    proof {
        let at = *old(p) as int;
        lemma_splice_concat(old(out)@, at, head@, bits@);
        lemma_splice_concat(old(out)@, at, head@ + bits@, vals@);
        assert(head@ + bits@ + vals@ =~= segment(0xC4, huffman_table(cls, bits@, vals@)));
    }
}

/// Append a quantization table segment.
fn write_dqt(out: &mut [u8], p: &mut usize, id: u8, steps: &[u8; 64])
    requires
        *old(p) <= 4096,
    ensures
        final(out)@ == splice(
            old(out)@,
            *old(p) as int,
            segment(0xDB, quant_table(id, steps@)),
        ),
        *final(p) == *old(p) + segment(0xDB, quant_table(id, steps@)).len(),
{
    let mut qz: [u8; 65] = [0; 65];
    qz[0] = id;
    let mut k: usize = 0;
    while k < 64
        invariant
            k <= 64,
            qz@[0] == id,
            forall|j: int| 0 <= j < k ==> #[trigger] qz@[j + 1] == steps@[natural_index(j)],
        decreases 64 - k,
    {
        qz[k + 1] = steps[zigzag_index(k)];
        k = k + 1;
    }
    assert(qz@ =~= quant_table(id, steps@)) by {
        assert forall|i: int| 0 <= i < 65 implies #[trigger] qz@[i] == quant_table(id, steps@)[i] by {
            if i > 0 {
                assert(qz@[(i - 1) + 1] == steps@[natural_index(i - 1)]);
            }
        }
    }
    seg(out, p, 0xDB, &qz);
}

/// Write the JFIF headers up to and including the scan header. `ri` is the restart interval in
/// MCUs; 0 stands for none. Returns the offset where the scan begins.
pub fn write_headers(out: &mut [u8], w: usize, h: usize, ri: u16) -> (start: usize)
    ensures
        final(out)@ == splice(old(out)@, 0, header_bytes(w as int, h as int, ri as int)),
        start == header_bytes(w as int, h as int, ri as int).len(),
        start == header_length(ri as int),
{
    let ghost base = out@;
    let mut p: usize = 0;
    let soi: [u8; 2] = [0xFF, 0xD8];
    append_all(out, &mut p, &soi);
    let ghost s1 = soi@;
    let app0: [u8; 14] = [0x4A, 0x46, 0x49, 0x46, 0, 1, 1, 0, 0, 1, 0, 1, 0, 0];
    seg(out, &mut p, 0xE0, &app0);
    proof {
        assert(app0@ =~= jfif());
        lemma_splice_concat(base, 0, s1, segment(0xE0, jfif()));
    }
    let ghost s2 = s1 + segment(0xE0, jfif());
    if ri != 0 {
        let dri: [u8; 2] = [(ri / 256) as u8, (ri % 256) as u8];
        seg(out, &mut p, 0xDD, &dri);
        assert(dri@ =~= seq![high_byte(ri as int), low_byte(ri as int)]);
    }
    proof {
        lemma_splice_concat(base, 0, s2, restart_segment(ri as int));
        lemma_splice_empty(splice(base, 0, s2), s2.len() as int);
    }
    let ghost s3 = s2 + restart_segment(ri as int);
    write_dqt(out, &mut p, 0, &QUANT_L);
    let ghost s4 = s3 + segment(0xDB, quant_table(0, QUANT_L@));
    write_dqt(out, &mut p, 1, &QUANT_C);
    let ghost s5 = s4 + segment(0xDB, quant_table(1, QUANT_C@));
    proof {
        lemma_splice_concat(base, 0, s3, segment(0xDB, quant_table(0, QUANT_L@)));
        lemma_splice_concat(base, 0, s4, segment(0xDB, quant_table(1, QUANT_C@)));
    }
    let sof: [u8; 15] = [
        8,
        (h / 256 % 256) as u8,
        (h % 256) as u8,
        (w / 256 % 256) as u8,
        (w % 256) as u8,
        3,
        1,
        0x22,
        0,
        2,
        0x11,
        1,
        3,
        0x11,
        1,
    ];
    seg(out, &mut p, 0xC0, &sof);
    assert(sof@ =~= frame(w as int, h as int));
    let ghost s6 = s5 + segment(0xC0, frame(w as int, h as int));
    write_dht(out, &mut p, 0x00, &DHT_DC_L_BITS, &DHT_DC_L_VAL);
    let ghost t7 = segment(0xC4, huffman_table(0x00, DHT_DC_L_BITS@, DHT_DC_L_VAL@));
    write_dht(out, &mut p, 0x10, &DHT_AC_L_BITS, &DHT_AC_L_VAL);
    let ghost t8 = segment(0xC4, huffman_table(0x10, DHT_AC_L_BITS@, DHT_AC_L_VAL@));
    write_dht(out, &mut p, 0x01, &DHT_DC_C_BITS, &DHT_DC_C_VAL);
    let ghost t9 = segment(0xC4, huffman_table(0x01, DHT_DC_C_BITS@, DHT_DC_C_VAL@));
    write_dht(out, &mut p, 0x11, &DHT_AC_C_BITS, &DHT_AC_C_VAL);
    let ghost t10 = segment(0xC4, huffman_table(0x11, DHT_AC_C_BITS@, DHT_AC_C_VAL@));
    proof {
        lemma_splice_concat(base, 0, s5, segment(0xC0, frame(w as int, h as int)));
        lemma_splice_concat(base, 0, s6, t7);
        lemma_splice_concat(base, 0, s6 + t7, t8);
        lemma_splice_concat(base, 0, s6 + t7 + t8, t9);
        lemma_splice_concat(base, 0, s6 + t7 + t8 + t9, t10);
    }
    let sos: [u8; 10] = [3, 1, 0x00, 2, 0x11, 3, 0x11, 0, 0x3F, 0];
    seg(out, &mut p, 0xDA, &sos);
    proof {
        assert(sos@ =~= scan_header());
        lemma_splice_concat(base, 0, s6 + t7 + t8 + t9 + t10, segment(0xDA, scan_header()));
        lemma_header_length(w as int, h as int, ri as int);
    }
    p
}

/// A restart interval puts six bytes behind byte 20 and changes nothing else.
pub proof fn law_restart_interval(w: int, h: int, ri: int)
    requires
        1 <= ri <= 65535,
    ensures
        header_bytes(w, h, 0).len() == 623,
        header_bytes(w, h, ri) == header_bytes(w, h, 0).take(20) + seq![
            0xFFu8,
            0xDD,
            0,
            4,
            (ri / 256) as u8,
            (ri % 256) as u8,
        ] + header_bytes(w, h, 0).skip(20),
{
    lemma_header_length(w, h, 0);
    lemma_header_length(w, h, ri);
    let dri = seq![0xFFu8, 0xDD, 0, 4, (ri / 256) as u8, (ri % 256) as u8];
    assert(restart_segment(ri) =~= dri);
    assert(header_bytes(w, h, ri) =~= header_bytes(w, h, 0).take(20) + dri + header_bytes(
        w,
        h,
        0,
    ).skip(20));
}

} // verus!
