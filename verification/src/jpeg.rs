//! Baseline JPEG encoder (4:2:0, integer DCT) for RGB565 frames.
//!
//! Quantization for quality 80, the standard Huffman tables, a fixed-point DCT, quantization by
//! reciprocals, no restart markers.

pub mod bits;
pub mod block;
pub mod dct;
pub mod decode;
pub mod fidelity;
pub mod header;
pub mod huffman;
pub mod laws;
pub mod locality;
pub mod reader;
pub mod scan;
pub mod tables;

use vstd::prelude::*;

use crate::bytes::{lemma_splice_concat, splice};
use crate::pixel::holds_frame;

pub use header::write_headers;
pub use scan::encode_segment;

use header::{header_bytes, w8};
use scan::{image, Image};

verus! {

/// The JPEG file of a frame: headers, one scan over every MCU row, end marker.
pub open spec fn jpeg_bytes(img: Image) -> Seq<u8> {
    header_bytes(img.w, img.h, 0) + img.scan_bytes(0, (img.h + 15) / 16) + seq![0xFFu8, 0xD9]
}

/// Encode the `w` x `h` frame `fb` as a JPEG file into `out`. Returns the length of the file, or
/// `None` if `out` is too small; `out` then holds as much of the file as fits.
pub fn encode(fb: &[u32], w: usize, h: usize, out: &mut [u8]) -> (len: Option<usize>)
    requires
        w + 15 <= usize::MAX,
        h + 15 <= usize::MAX,
        holds_frame(fb@, w as int, h as int),
    ensures
        final(out)@ == splice(old(out)@, 0, jpeg_bytes(image(fb@, w, h))),
        len == if jpeg_bytes(image(fb@, w, h)).len() <= old(out)@.len() {
            Some(jpeg_bytes(image(fb@, w, h)).len() as usize)
        } else {
            None::<usize>
        },
{
    let ghost img = image(fb@, w, h);
    let ghost base = out@;
    let ghost heads = header_bytes(w as int, h as int, 0);
    let mcy: usize = (h + 15) / 16;
    let ghost scan = img.scan_bytes(0, mcy as int);
    let ghost eoi = seq![0xFFu8, 0xD9];
    let start: usize = write_headers(out, w, h, 0);
    if start > out.len() {
        assert(out@ =~= splice(base, 0, jpeg_bytes(img)));
        return None;
    }
    let ghost mid = out@;
    let (_, rest) = out.split_at_mut(start);
    let n = encode_segment(fb, w, h, 0, mcy, rest);
    proof {
        assert(out@ =~= splice(mid, start as int, scan));
        lemma_splice_concat(base, 0, heads, scan);
        assert(jpeg_bytes(img) =~= heads + scan + eoi);
    }
    match n {
        None => {
            assert(out@ =~= splice(base, 0, jpeg_bytes(img)));
            None
        },
        Some(n) => {
            let mut p: usize = start + n;
            if out.len() - p < 2 {
                if p < out.len() {
                    w8(out, &mut p, 0xFF);
                }
                assert(out@ =~= splice(base, 0, jpeg_bytes(img)));
                return None;
            }
            w8(out, &mut p, 0xFF);
            w8(out, &mut p, 0xD9);
            assert(out@ =~= splice(base, 0, jpeg_bytes(img)));
            Some(p)
        },
    }
}

} // verus!
