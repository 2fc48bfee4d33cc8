use k210_camera::jpeg::bits::BitW;
use k210_camera::jpeg::block::{cat, code_block, zigzag_index};
use k210_camera::jpeg::dct::fdct;
use k210_camera::jpeg::tables::{
    AC_C, AC_L, DC_C, DC_L, DHT_AC_C_BITS, DHT_AC_C_VAL, DHT_AC_L_BITS, DHT_AC_L_VAL, DHT_DC_C_BITS,
    DHT_DC_C_VAL, DHT_DC_L_BITS, DHT_DC_L_VAL, QUANT_L,
};
use k210_camera::jpeg::{encode, encode_segment, write_headers};

fn fnv(bytes: &[u8]) -> u64 {
    let mut x: u64 = 0xcbf2_9ce4_8422_2325;
    for &b in bytes {
        x = (x ^ b as u64).wrapping_mul(0x100_0000_01b3);
    }
    x
}

fn noise(n: usize, seed: u32) -> Vec<u32> {
    let mut x = seed;
    let mut out = Vec::new();
    for _ in 0..n {
        x = x.wrapping_mul(1_664_525).wrapping_add(1_013_904_223);
        out.push(x);
    }
    out
}

fn scan(fb: &[u32], w: usize, h: usize, from: usize, to: usize) -> Vec<u8> {
    let mut out = vec![0u8; 20_000];
    let n = encode_segment(fb, w, h, from, to, &mut out).unwrap();
    out.truncate(n);
    out
}

fn file(fb: &[u32], w: usize, h: usize) -> Vec<u8> {
    let mut out = vec![0u8; 20_000];
    let n = encode(fb, w, h, &mut out).unwrap();
    out.truncate(n);
    out
}

#[test]
fn headers_have_their_lengths() {
    let mut out = [0u8; 700];
    assert_eq!(write_headers(&mut out, 640, 480, 0), 623);
    assert_eq!(fnv(&out[..623]), 0x7272_3e5b_5618_65c4);
    assert_eq!(&out[..4], &[0xFF, 0xD8, 0xFF, 0xE0]);
    assert_eq!(out[623], 0);
    assert_eq!(write_headers(&mut out, 320, 240, 40), 629);
    assert_eq!(fnv(&out[..629]), 0x4f25_3379_b70c_17a2);
}

#[test]
fn headers_are_cut_by_a_small_buffer() {
    let mut out = [7u8; 10];
    assert_eq!(write_headers(&mut out, 8, 8, 0), 623);
    assert_eq!(out, [0xFF, 0xD8, 0xFF, 0xE0, 0, 16, 0x4A, 0x46, 0x49, 0x46]);
}

#[test]
fn flat_frames_take_a_few_bytes() {
    assert_eq!(scan(&[0x8410_8410; 128], 16, 16, 0, 1), vec![0x7D, 0x14, 0x51, 0x40, 0x1F]);
    assert_eq!(scan(&[0; 128], 16, 16, 0, 1), vec![0xF9, 0x52, 0x8A, 0x28, 0xA0, 0x0F]);
    assert_eq!(scan(&[0xFFFF_FFFF; 128], 16, 16, 0, 1), vec![0xFA, 0xA6, 0x8A, 0x28, 0xA0, 0x0F]);
}

#[test]
fn ramp_is_coded_exactly() {
    let px = |i: u32| -> u32 {
        let (x, y) = (i % 16, i / 16);
        ((x * 2) << 11) | ((y * 4) << 5) | (31 - x * 2)
    };
    let mut fb = Vec::new();
    for j in 0..128u32 {
        fb.push(px(2 * j) | (px(2 * j + 1) << 16));
    }
    let expected: [u8; 43] = [
        0xF3, 0x5B, 0x1F, 0x0E, 0x74, 0xF9, 0x3F, 0x4A, 0xE8, 0x6C, 0x7C, 0x39, 0xD3, 0xE4, 0xFD,
        0x2B, 0xD1, 0x2C, 0x7C, 0x39, 0xD3, 0xE4, 0xFD, 0x2B, 0xA1, 0xB1, 0xF0, 0xE7, 0x4F, 0x93,
        0xF4, 0xAD, 0x78, 0xE7, 0x3C, 0xF8, 0xB5, 0x0E, 0x0D, 0xE2, 0x3F, 0x87, 0x53,
    ];
    assert_eq!(scan(&fb, 16, 16, 0, 1), expected.to_vec());
}

#[test]
fn noise_files_are_exact() {
    let cases: [(usize, usize, usize, u32, usize, u64); 4] = [
        (8, 8, 32, 1, 730, 0x5400_3628_73b6_4bf2),
        (20, 18, 180, 7, 1094, 0x9530_a3bb_4543_235e),
        (33, 17, 281, 99, 1207, 0xbe98_ee7a_b05b_37eb),
        (160, 120, 9600, 5, 13849, 0x56db_6151_4e87_512e),
    ];
    for &(w, h, words, seed, len, hash) in &cases {
        let f = file(&noise(words, seed), w, h);
        assert_eq!(f.len(), len);
        assert_eq!(fnv(&f), hash);
        assert_eq!(&f[..2], &[0xFF, 0xD8]);
        assert_eq!(&f[len - 2..], &[0xFF, 0xD9]);
    }
}

#[test]
fn one_pixel_is_a_frame() {
    let f = file(&[0xF800], 1, 1);
    assert_eq!(f.len(), 634);
    assert_eq!(fnv(&f), 0x16e4_337a_02bc_a724);
}

#[test]
fn segments_stand_alone() {
    let fb = noise(16 * 32 / 2, 3);
    let a = scan(&fb, 16, 32, 0, 1);
    let b = scan(&fb, 16, 32, 1, 2);
    assert_eq!((a.len(), fnv(&a)), (172, 0x3487_aeb6_3ad1_d9c5));
    assert_eq!((b.len(), fnv(&b)), (172, 0xcbaa_3e59_c0f1_defe));
    let whole = scan(&fb, 16, 32, 0, 2);
    assert_eq!((whole.len(), fnv(&whole)), (344, 0x0c9d_5763_26ab_1ac0));
    // The second half alone is coded like the second half of the frame.
    assert_eq!(scan(&fb[128..], 16, 16, 0, 1), b);
    // No rows, no bytes.
    assert_eq!(scan(&fb, 16, 32, 1, 1), vec![]);
}

#[test]
fn scan_holds_no_marker() {
    let s = scan(&noise(9600, 5), 160, 120, 0, 8);
    assert_eq!(s.len(), 13224);
    let mut stuffed = 0;
    for i in 0..s.len() {
        if s[i] == 0xFF {
            stuffed += 1;
            assert_eq!(s[i + 1], 0);
        }
    }
    assert!(stuffed > 0);
}

#[test]
fn small_buffers_are_refused() {
    let fb = noise(32, 1);
    let whole = file(&fb, 8, 8);
    for &room in &[0usize, 1, 622, 623, 624, 727, 728, 729] {
        let mut out = vec![0xABu8; room];
        assert_eq!(encode(&fb, 8, 8, &mut out), None);
        assert_eq!(out, whole[..room].to_vec());
    }
    let mut out = vec![0u8; 730];
    assert_eq!(encode(&fb, 8, 8, &mut out), Some(730));
    assert_eq!(out, whole);
    let mut out = vec![0u8; 104];
    assert_eq!(encode_segment(&fb, 8, 8, 0, 1, &mut out), None);
}

#[test]
fn transform_of_a_flat_block_is_its_sum() {
    let mut b = [-128i32; 64];
    fdct(&mut b);
    assert_eq!(b[0], -8192);
    for i in 1..64 {
        assert_eq!(b[i], 0);
    }
}

#[test]
fn transform_is_exact() {
    let mut b = [0i32; 64];
    for i in 0..64 {
        b[i] = (i as i32 * 7) % 251 - 125;
    }
    let sum: i32 = b.iter().sum();
    fdct(&mut b);
    assert_eq!(b[0], sum);
    assert_eq!(&b[..8], &[-916, -111, 0, -426, 0, 182, 0, -189]);
    assert_eq!(&b[24..32], &[-2620, 714, 0, -251, 0, 168, 0, -142]);
    assert_eq!(&b[56..], &[-119, 1262, 0, -443, 0, 296, 0, -251]);
}

#[test]
fn categories_of_coefficients() {
    assert_eq!(cat(0), (0, 0));
    assert_eq!(cat(1), (1, 1));
    assert_eq!(cat(-1), (1, 0));
    assert_eq!(cat(5), (3, 5));
    assert_eq!(cat(-5), (3, 2));
    assert_eq!(cat(255), (8, 255));
    assert_eq!(cat(-256), (9, 255));
    assert_eq!(cat(i32::MAX), (31, 0x7FFF_FFFF));
}

#[test]
fn zigzag_order() {
    let first: Vec<usize> = (0..10).map(|k| zigzag_index(k)).collect();
    assert_eq!(first, vec![0, 1, 8, 16, 9, 2, 3, 10, 17, 24]);
    let mut all: Vec<usize> = (0..64).map(|k| zigzag_index(k)).collect();
    all.sort();
    assert_eq!(all, (0..64).collect::<Vec<usize>>());
}

#[test]
fn bits_are_stuffed_and_padded() {
    let mut buf = [0u8; 8];
    let mut w = BitW::new(&mut buf);
    w.put(0xFF, 8);
    w.put(0b101, 3);
    w.put(9, 0);
    w.flush();
    assert_eq!(w.pos, 3);
    assert!(!w.overflow);
    assert_eq!(&buf[..3], &[0xFF, 0x00, 0b1011_1111]);
}

#[test]
fn bit_writer_notices_overflow() {
    let mut buf = [0u8; 1];
    let mut w = BitW::new(&mut buf);
    w.put(0xFF, 8);
    assert!(w.overflow);
    assert_eq!(w.pos, 2);
    assert_eq!(buf, [0xFF]);
}

#[test]
fn bit_writer_counts_what_finds_no_room() {
    let mut buf: [u8; 0] = [];
    let mut w = BitW::new(&mut buf);
    w.put(0x12, 8);
    assert!(w.overflow);
    assert_eq!(w.pos, 1);
    w.put(0xFF34, 16);
    assert!(w.overflow);
    assert_eq!(w.pos, 4);
    w.put(1, 1);
    w.flush();
    assert_eq!((w.pos, w.n), (6, 0));
}

#[test]
fn long_runs_of_zeros_are_coded_in_sixteens() {
    // One coefficient after 20 zeros: a run of sixteen, then a run of four.
    let mut coef = [0i32; 64];
    coef[zigzag_index(21)] = 8;
    let recip = [65536i32; 64];
    let recip = recip.map(|r| r / 4);
    let mut prev = 0;
    let mut buf = [0u8; 16];
    let mut w = BitW::new(&mut buf);
    code_block(&coef.map(|c| c * 4), &recip, &DC_L, &AC_L, &mut prev, &mut w);
    w.flush();
    // DC 00; ZRL 11111111001; run 4 size 1: 111011, 1; end 1010; padding.
    let n = w.pos;
    assert_eq!(prev, 0);
    assert_eq!(&buf[..n], &[0b0011_1111, 0b1100_1111, 0b0111_1010]);
}

#[test]
fn dc_is_coded_as_a_difference() {
    let mut coef = [0i32; 64];
    coef[0] = 80;
    let recip = [16384i32; 64];
    let mut prev = 0;
    let mut buf = [0u8; 16];
    let mut w = BitW::new(&mut buf);
    code_block(&coef, &recip, &DC_L, &AC_L, &mut prev, &mut w);
    // 80 * 16384 / 2^19 rounds to 3: size 2, code 011, bits 11; end 1010.
    assert_eq!(prev, 3);
    code_block(&coef, &recip, &DC_L, &AC_L, &mut prev, &mut w);
    // No difference: code 00; end 1010; padding.
    w.flush();
    assert_eq!(w.pos, 2);
    assert_eq!(&buf[..2], &[0b0111_1101, 0b0001_0101]);
}

/// The codes that lengths and symbols announce, in order.
fn canonical(bits: &[u8; 16], vals: &[u8]) -> Vec<(usize, u16, u8)> {
    let mut out = Vec::new();
    let mut code = 0u32;
    let mut next = 0;
    for len in 1..=16u8 {
        for _ in 0..bits[len as usize - 1] {
            out.push((vals[next] as usize, code as u16, len));
            code += 1;
            next += 1;
        }
        code <<= 1;
    }
    assert_eq!(next, vals.len());
    out
}

#[test]
fn headers_announce_the_code_tables() {
    for (symbol, code, len) in canonical(&DHT_DC_L_BITS, &DHT_DC_L_VAL) {
        assert_eq!(DC_L[symbol], (code, len));
    }
    for (symbol, code, len) in canonical(&DHT_DC_C_BITS, &DHT_DC_C_VAL) {
        assert_eq!(DC_C[symbol], (code, len));
    }
    for (symbol, code, len) in canonical(&DHT_AC_L_BITS, &DHT_AC_L_VAL) {
        assert_eq!(AC_L[symbol], (code, len));
    }
    for (symbol, code, len) in canonical(&DHT_AC_C_BITS, &DHT_AC_C_VAL) {
        assert_eq!(AC_C[symbol], (code, len));
    }
}

#[test]
fn no_code_begins_another() {
    let codes = canonical(&DHT_AC_L_BITS, &DHT_AC_L_VAL);
    for &(a, x, m) in &codes {
        for &(b, y, n) in &codes {
            if a != b && m <= n {
                assert!(y >> (n - m) != x);
            }
        }
    }
}

#[test]
fn coefficients_are_read_back() {
    for v in -2047i32..2048 {
        let (size, bits) = cat(v);
        let back = if size == 0 {
            0
        } else if bits < 1 << (size - 1) {
            bits as i32 - (1 << size) + 1
        } else {
            bits as i32
        };
        assert_eq!(back, v);
    }
}

#[test]
fn quantization_is_within_half_a_step() {
    for &step in &QUANT_L {
        let step = step as i32;
        let recip = [(65536 + step / 2) / step; 64];
        for c in (-8192i32..=8192).step_by(101) {
            let mut coef = [0i32; 64];
            coef[0] = c;
            let mut prev = 0;
            let mut buf = [0u8; 16];
            let mut w = BitW::new(&mut buf);
            code_block(&coef, &recip, &DC_L, &AC_L, &mut prev, &mut w);
            assert!(16 * (8 * step * prev - c).abs() <= 65 * step);
        }
    }
}

#[test]
fn other_coefficients_give_other_bytes() {
    let fb = noise(128, 11);
    let s = scan(&fb, 16, 16, 0, 1);
    let mut other = fb.clone();
    other[77] ^= 0xF000_0000;
    assert_ne!(scan(&other, 16, 16, 0, 1), s);
}

#[test]
fn joined_segments_are_split_at_the_marker() {
    let fb = noise(16 * 32 / 2, 3);
    let (a, b) = (scan(&fb, 16, 32, 0, 1), scan(&fb, 16, 32, 1, 2));
    let mut joined = a.clone();
    joined.extend([0xFF, 0xD0]);
    joined.extend(&b);
    let at = (0..joined.len()).find(|&i| joined[i] == 0xFF && joined[i + 1] != 0).unwrap();
    assert_eq!(&joined[..at], &a[..]);
    assert_eq!(&joined[at + 2..], &b[..]);
}
