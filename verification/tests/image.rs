use k210_camera::image::{apply_off, captures, clamp_ch, denoise, denoise_median, destripe, med3, med_px};
use k210_camera::pixel::pixel;

fn px(r: u32, g: u32, b: u32) -> u32 {
    (r << 11) | (g << 5) | b
}

fn green_mean(words: &[u32]) -> u32 {
    let sum: u32 = words.iter().map(|w| ((w >> 5) & 0x3f) + ((w >> 21) & 0x3f)).sum();
    sum / (2 * words.len() as u32)
}

#[test]
fn median_of_three() {
    assert_eq!(med3(1, 2, 3), 2);
    assert_eq!(med3(3, 1, 2), 2);
    assert_eq!(med3(2, 3, 1), 2);
    assert_eq!(med3(7, 7, 0), 7);
    assert_eq!(med3(0, 63, 63), 63);
    assert_eq!(med3(5, 5, 5), 5);
}

#[test]
fn median_of_pixels_is_by_channel() {
    assert_eq!(med_px(px(1, 60, 9), px(2, 50, 7), px(3, 40, 8)), px(2, 50, 8));
    // Bits above the pixel do not count.
    assert_eq!(med_px(0xABCD_0000 | px(1, 2, 3), px(1, 2, 3), 0), px(1, 2, 3));
}

#[test]
fn speckle_of_one_frame_is_rejected() {
    let good = [0x1234_5678u32, 0x9ABC_DEF0];
    let mut a = [0xFFFF_FFFF, 0x9ABC_DEF0];
    denoise_median(&mut a, &good, &good, 2, 2);
    assert_eq!(a, good);
    let mut a = good;
    denoise_median(&mut a, &[0, 0], &good, 2, 2);
    assert_eq!(a, good);
}

#[test]
fn median_touches_only_the_frame() {
    let mut a = [1u32, 2, 3];
    denoise_median(&mut a, &[7, 7, 7], &[7, 7, 7], 1, 5);
    assert_eq!(a, [7, 7, 3]);
}

#[test]
fn channels_are_clamped() {
    assert_eq!(clamp_ch(-1, 31), 0);
    assert_eq!(clamp_ch(0, 31), 0);
    assert_eq!(clamp_ch(31, 31), 31);
    assert_eq!(clamp_ch(32, 31), 31);
}

#[test]
fn brightness_is_shifted() {
    assert_eq!(apply_off(px(10, 20, 10), 5), px(12, 25, 12));
    // Half an odd shift is rounded towards zero.
    assert_eq!(apply_off(px(10, 20, 10), -5), px(8, 15, 8));
    assert_eq!(apply_off(px(31, 60, 0), 9), px(31, 63, 4));
    assert_eq!(apply_off(px(1, 3, 0), -20), 0);
    assert_eq!(apply_off(px(3, 4, 5), 0), px(3, 4, 5));
}

#[test]
fn rows_are_shifted_towards_the_mean() {
    // Two rows of two pixels: green 10 and green 20. The mean is 15.
    let dark = px(8, 10, 8);
    let light = px(8, 20, 8);
    let mut f = [dark | (dark << 16), light | (light << 16)];
    destripe(&mut f, 2, 2);
    assert_eq!(pixel(&f, 0), px(10, 15, 10));
    assert_eq!(pixel(&f, 1), px(10, 15, 10));
    assert_eq!(pixel(&f, 2), px(6, 15, 6));
    assert_eq!(pixel(&f, 3), px(6, 15, 6));
}

#[test]
fn rows_at_the_mean_stay() {
    let even = [px(1, 30, 2) | (px(3, 30, 4) << 16); 4];
    let mut f = even;
    destripe(&mut f, 2, 4);
    assert_eq!(f, even);
}

#[test]
fn no_row_overshoots_the_mean() {
    let mut x: u32 = 9;
    let mut f = [0u32; 64];
    for w in f.iter_mut() {
        x = x.wrapping_mul(1_664_525).wrapping_add(1_013_904_223);
        *w = x;
    }
    let mean = green_mean(&f);
    let before: Vec<u32> = f.chunks(4).map(|row| green_mean(row)).collect();
    destripe(&mut f, 8, 16);
    for (row, was) in f.chunks(4).zip(before) {
        let is = green_mean(row);
        assert!((was <= is && is <= mean) || (mean <= is && is <= was));
    }
}

#[test]
fn words_behind_the_frame_stay() {
    let mut f = [0u32, 0, 0xFFFF_FFFF];
    destripe(&mut f, 2, 2);
    assert_eq!(f, [0, 0, 0xFFFF_FFFF]);
}

#[test]
fn pixels_are_packed_low_half_first() {
    let f = [0x2222_1111u32, 0x4444_3333];
    assert_eq!(pixel(&f, 0), 0x1111);
    assert_eq!(pixel(&f, 1), 0x2222);
    assert_eq!(pixel(&f, 2), 0x3333);
    assert_eq!(pixel(&f, 3), 0x4444);
}

#[test]
fn denoising_is_median_and_destriping() {
    assert_eq!((captures(true), captures(false)), (3, 1));
    let mut a = [0x1234_5678u32, 0x0F0F_F0F0, 0xDEAD_BEEF, 0x0102_0304];
    let b = [0x1111_2222u32, 0x3333_4444, 0x5555_6666, 0x7777_8888];
    let c = [0xFFFF_0000u32, 0x0000_FFFF, 0xA5A5_5A5A, 0x1234_4321];
    let mut expected = a;
    denoise_median(&mut expected, &b, &c, 4, 2);
    destripe(&mut expected, 4, 2);
    denoise(&mut a, &b, &c, 4, 2);
    assert_eq!(a, expected);
}
