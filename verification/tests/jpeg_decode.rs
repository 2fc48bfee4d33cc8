use k210_camera::jpeg::bits::BitW;
use k210_camera::jpeg::block::{code_block, zigzag_index};
use k210_camera::jpeg::dct::fdct;
use k210_camera::jpeg::tables::{
    AC_L, DC_L, DHT_AC_C_BITS, DHT_AC_C_VAL, DHT_AC_L_BITS, DHT_AC_L_VAL, DHT_DC_C_BITS,
    DHT_DC_C_VAL, DHT_DC_L_BITS, DHT_DC_L_VAL, QUANT_C, QUANT_L,
};
use k210_camera::jpeg::{encode_segment, write_headers};

fn frame(words: usize, seed: u32) -> Vec<u32> {
    let mut x = seed;
    let mut out = Vec::new();
    for _ in 0..words {
        x = x.wrapping_mul(1_664_525).wrapping_add(1_013_904_223);
        out.push(x);
    }
    out
}

fn segment(fb: &[u32], w: usize, h: usize, from: usize, to: usize) -> Vec<u8> {
    let mut out = vec![0u8; 40_000];
    let n = encode_segment(fb, w, h, from, to, &mut out).unwrap();
    out.truncate(n);
    out
}

fn pixel(fb: &[u32], i: usize) -> u32 {
    if i % 2 == 0 {
        fb[i / 2] & 0xFFFF
    } else {
        fb[i / 2] >> 16
    }
}

/// RGB888 of a pixel; beyond the edges the last column and row repeat.
fn rgb(fb: &[u32], w: usize, h: usize, x: usize, y: usize) -> [i32; 3] {
    let px = pixel(fb, y.min(h - 1) * w + x.min(w - 1)) as i32;
    let (r, g, b) = (px >> 11, (px >> 5) & 63, px & 31);
    [r << 3 | r >> 2, g << 2 | g >> 4, b << 3 | b >> 2]
}

fn quantized(mut block: [i32; 64], steps: &[u8; 64]) -> Vec<i32> {
    fdct(&mut block);
    (0..64)
        .map(|i| {
            let step = steps[i] as i64;
            let q = (block[i].abs() as i64 * ((65536 + step / 2) / step) + (1 << 18)) >> 19;
            if block[i] < 0 {
                -q as i32
            } else {
                q as i32
            }
        })
        .collect()
}

/// The quantized blocks of a segment in the order of the scan.
fn blocks(fb: &[u32], w: usize, h: usize, from: usize, to: usize) -> Vec<Vec<i32>> {
    let mut out = Vec::new();
    for my in from..to {
        for mx in 0..(w + 15) / 16 {
            for k in 0..4 {
                let (x0, y0) = (16 * mx + 8 * (k % 2), 16 * my + 8 * (k / 2));
                let mut b = [0i32; 64];
                for i in 0..64 {
                    let [r, g, bl] = rgb(fb, w, h, x0 + i % 8, y0 + i / 8);
                    b[i] = ((77 * r + 150 * g + 29 * bl) >> 8) - 128;
                }
                out.push(quantized(b, &QUANT_L));
            }
            let (mut cb, mut cr) = ([0i32; 64], [0i32; 64]);
            for i in 0..64 {
                let (x, y) = (16 * mx + 2 * (i % 8), 16 * my + 2 * (i / 8));
                let mut mean = [0i32; 3];
                for c in 0..3 {
                    mean[c] = (rgb(fb, w, h, x, y)[c]
                        + rgb(fb, w, h, x + 1, y)[c]
                        + rgb(fb, w, h, x, y + 1)[c]
                        + rgb(fb, w, h, x + 1, y + 1)[c])
                        >> 2;
                }
                cb[i] = (-43 * mean[0] - 85 * mean[1] + 128 * mean[2]) >> 8;
                cr[i] = (128 * mean[0] - 107 * mean[1] - 21 * mean[2]) >> 8;
            }
            out.push(quantized(cb, &QUANT_C));
            out.push(quantized(cr, &QUANT_C));
        }
    }
    out
}

/// A reader of the bits of a scan.
struct Bits {
    bits: Vec<bool>,
    at: usize,
}

impl Bits {
    /// Without the zero behind each 0xFF.
    fn new(bytes: &[u8]) -> Bits {
        let mut bits = Vec::new();
        let mut i = 0;
        while i < bytes.len() {
            for k in 0..8 {
                bits.push(bytes[i] >> (7 - k) & 1 == 1);
            }
            if bytes[i] == 0xFF {
                assert_eq!(bytes[i + 1], 0);
                i += 1;
            }
            i += 1;
        }
        Bits { bits, at: 0 }
    }

    fn take(&mut self, n: usize) -> i32 {
        let mut v = 0;
        for _ in 0..n {
            v = 2 * v + self.bits[self.at] as i32;
            self.at += 1;
        }
        v
    }

    /// The next symbol of an announced table.
    fn symbol(&mut self, counts: &[u8; 16], symbols: &[u8]) -> usize {
        let (mut code, mut first, mut index) = (0, 0, 0);
        for len in 0..16 {
            code = 2 * code + self.take(1);
            let count = counts[len] as i32;
            if code - first < count {
                return symbols[(index + code - first) as usize] as usize;
            }
            index += count;
            first = 2 * (first + count);
        }
        panic!("no code");
    }

    fn value(&mut self, size: usize) -> i32 {
        let v = self.take(size);
        if size > 0 && v < 1 << (size - 1) {
            v - (1 << size) + 1
        } else {
            v
        }
    }

    fn block(&mut self, dc: (&[u8; 16], &[u8]), ac: (&[u8; 16], &[u8]), prev: i32) -> Vec<i32> {
        let mut q = vec![0; 64];
        let size = self.symbol(dc.0, dc.1);
        q[0] = prev + self.value(size);
        let mut k = 1;
        while k < 64 {
            let symbol = self.symbol(ac.0, ac.1);
            if symbol == 0 {
                break;
            } else if symbol == 0xF0 {
                k += 16;
            } else {
                k += symbol / 16;
                q[zigzag_index(k)] = self.value(symbol % 16);
                k += 1;
            }
        }
        q
    }
}

fn decoded(bytes: &[u8], mcus: usize) -> (Vec<Vec<i32>>, Vec<bool>) {
    let mut r = Bits::new(bytes);
    let mut preds = [0i32; 3];
    let mut out = Vec::new();
    for j in 0..6 * mcus {
        let c = if j % 6 < 4 { 0 } else { j % 6 - 3 };
        let q = if c == 0 {
            r.block((&DHT_DC_L_BITS, &DHT_DC_L_VAL), (&DHT_AC_L_BITS, &DHT_AC_L_VAL), preds[c])
        } else {
            r.block((&DHT_DC_C_BITS, &DHT_DC_C_VAL), (&DHT_AC_C_BITS, &DHT_AC_C_VAL), preds[c])
        };
        preds[c] = q[0];
        out.push(q);
    }
    let left = r.bits[r.at..].to_vec();
    (out, left)
}

#[test]
fn scans_are_decoded() {
    for &(w, h, from, to, seed) in
        &[(16usize, 16usize, 0usize, 1usize, 1u32), (33, 17, 0, 2, 2), (40, 50, 1, 4, 3), (8, 8, 0, 1, 4)]
    {
        let fb = frame((w * h + 1) / 2, seed);
        let bytes = segment(&fb, w, h, from, to);
        let mcus = (to - from) * ((w + 15) / 16);
        let (got, left) = decoded(&bytes, mcus);
        assert_eq!(got, blocks(&fb, w, h, from, to));
        assert!(left.len() < 8 && left.iter().all(|&b| b));
    }
}

#[test]
fn place_of_a_segment_does_not_show() {
    let fb = frame(24 * 60 / 2, 8);
    for top in 0..4 {
        for end in top..5 {
            let cut = 8 * top * 24;
            assert_eq!(
                segment(&fb, 24, 60, top, end),
                segment(&fb[cut..], 24, 60 - 16 * top, 0, end - top)
            );
        }
    }
}

#[test]
fn filling_up_whole_mcus_does_not_show() {
    let (w, h) = (21usize, 35usize);
    let fb = frame((w * h + 1) / 2, 9);
    let (pw, ph) = (32, 48);
    let mut padded = vec![0u32; pw * ph / 2];
    for y in 0..ph {
        for x in 0..pw {
            let i = y * pw + x;
            let px = pixel(&fb, y.min(h - 1) * w + x.min(w - 1));
            padded[i / 2] |= px << (16 * (i % 2));
        }
    }
    assert_eq!(segment(&fb, w, h, 0, 3), segment(&padded, pw, ph, 0, 3));
    assert_eq!(segment(&fb, w, h, 2, 3), segment(&padded, pw, ph, 2, 3));
}

#[test]
fn restart_interval_puts_in_six_bytes() {
    let (mut without, mut with) = ([0u8; 629], [0u8; 629]);
    assert_eq!(write_headers(&mut without, 320, 240, 0), 623);
    for ri in [1, 40, 0x1234, 65535] {
        assert_eq!(write_headers(&mut with, 320, 240, ri), 629);
        assert_eq!(with[..20], without[..20]);
        assert_eq!(with[20..26], [0xFF, 0xDD, 0, 4, (ri >> 8) as u8, ri as u8]);
        assert_eq!(with[26..], without[20..623]);
    }
}

/// The bits of a block of these coefficients in zigzag order, without padding.
fn block_bits(zz: &[i32; 64]) -> Vec<bool> {
    let mut coef = [0i32; 64];
    for k in 0..64 {
        coef[zigzag_index(k)] = 8 * zz[k];
    }
    let mut buf = [0u8; 400];
    let mut w = BitW::new(&mut buf);
    let mut prev = 0;
    code_block(&coef, &[65536; 64], &DC_L, &AC_L, &mut prev, &mut w);
    let rest = w.n as usize;
    w.flush();
    let n = w.pos;
    let mut bits = Bits::new(&buf[..n]).bits;
    bits.truncate(bits.len() - (8 - rest % 8) % 8);
    bits
}

fn code(entry: (u16, u8)) -> Vec<bool> {
    (0..entry.1).map(|i| entry.0 >> (entry.1 - 1 - i) & 1 == 1).collect()
}

#[test]
fn end_of_block_is_coded_where_the_last_coefficient_is_zero() {
    let mut zz = [0i32; 64];
    assert_eq!(block_bits(&zz), [code(DC_L[0]), code(AC_L[0])].concat());
    // 61 zeros ahead of the last but one: the end follows.
    zz[62] = 1;
    let zrl = code(AC_L[0xF0]);
    let run13 = [code(AC_L[0xD1]), vec![true]].concat();
    let front = [code(DC_L[0]), zrl.clone(), zrl.clone(), zrl.clone()].concat();
    assert_eq!(block_bits(&zz), [front.clone(), run13, code(AC_L[0])].concat());
    // The last one is not zero: no end.
    zz[62] = 0;
    zz[63] = -1;
    let run14 = [code(AC_L[0xE1]), vec![false]].concat();
    assert_eq!(block_bits(&zz), [front, run14].concat());
    // 42 zeros behind the last coefficient: the end, and no run of sixteen.
    let mut zz = [0i32; 64];
    zz[21] = 1;
    let run4 = [code(AC_L[0x41]), vec![true]].concat();
    assert_eq!(block_bits(&zz), [code(DC_L[0]), zrl, run4, code(AC_L[0])].concat());
}
