//! RGB565 pixels, two to a 32-bit word.

use vstd::prelude::*;

verus! {

/// Pixel `i` of a frame: the low half of its word for an even index, the high half for an odd one.
pub open spec fn pixel_at(words: Seq<u32>, i: int) -> u32 {
    if i % 2 == 0 {
        words[i / 2] % 0x1_0000
    } else {
        words[i / 2] / 0x1_0000
    }
}

/// The 5-bit red channel.
pub open spec fn red(px: u32) -> u32 {
    px / 2048 % 32
}

/// The 6-bit green channel.
pub open spec fn green(px: u32) -> u32 {
    px / 32 % 64
}

/// The 5-bit blue channel.
pub open spec fn blue(px: u32) -> u32 {
    px % 32
}

/// `words` holds every pixel of a `w` x `h` frame.
pub open spec fn holds_frame(words: Seq<u32>, w: int, h: int) -> bool {
    &&& w * h <= usize::MAX
    &&& w * h <= 2 * words.len()
}

/// Pixel `i` of a frame.
pub fn pixel(words: &[u32], i: usize) -> (px: u32)
    requires
        i / 2 < words@.len(),
    ensures
        px == pixel_at(words@, i as int),
        px < 0x1_0000,
{
    let word: u32 = words[i / 2];
    if i % 2 == 0 {
        word % 0x1_0000
    } else {
        word / 0x1_0000
    }
}

/// A word is its two pixels: the even one in its low half, the odd one in its high half. No other
/// word shows in them.
pub proof fn law_pixels(words: Seq<u32>, j: int)
    requires
        0 <= j < words.len(),
    ensures
        pixel_at(words, 2 * j) < 0x1_0000,
        pixel_at(words, 2 * j + 1) < 0x1_0000,
        words[j] == pixel_at(words, 2 * j) + 0x1_0000 * pixel_at(words, 2 * j + 1),
{
    assert((2 * j) / 2 == j && (2 * j) % 2 == 0 && (2 * j + 1) / 2 == j && (2 * j + 1) % 2 == 1);
}

/// A pixel is its channels: five bits of red, six of green, five of blue.
pub proof fn law_channels(px: u32)
    requires
        px < 0x1_0000,
    ensures
        red(px) < 32,
        green(px) < 64,
        blue(px) < 32,
        px == 2048 * red(px) + 32 * green(px) + blue(px),
{
}

} // verus!
