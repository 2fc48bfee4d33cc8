//! Frames as 24-bit BMP files, streamed in chunks.
//!
//! The file always declares 24-bit pixels. Over the link the pixels go either as they stand in the
//! file, or as RGB565, which the modem expands: a third less to send, and the same file.

use vstd::prelude::*;

use crate::bytes::{lemma_splice_chain, splice};
use crate::http::{head, lemma_head_len, write_head, Content};
use crate::pipe::{chunk_end, chunks, joined, law_chunks, CHUNK};
use crate::pixel::{blue, green, holds_frame, pixel, pixel_at, red};
use crate::text::{law_le32, le32_bytes, put_bytes, put_le32};
use crate::uart_wifi::{CMD_SEND, CMD_SEND565};

verus! {

/// Length of the file header.
pub const HEADER: u32 = 54;

/// Bytes that the pixels of a `w` x `h` frame take in the file.
pub open spec fn pixel_bytes(w: int, h: int) -> int {
    w * h * 3
}

/// The frame can be declared in a BMP file: nothing overflows. (Beyond 32 bits the declared length
/// of the pixels is truncated.)
pub open spec fn declarable(w: int, h: int) -> bool {
    &&& pixel_bytes(w, h) <= usize::MAX
    &&& HEADER + (pixel_bytes(w, h) as u32) <= u32::MAX
}

/// Declared length of the file.
pub open spec fn file_size(w: int, h: int) -> u32 {
    (HEADER + (pixel_bytes(w, h) as u32)) as u32
}

/// `n` zero bytes.
pub open spec fn zeros(n: nat) -> Seq<u8> {
    Seq::new(n, |i: int| 0u8)
}

/// The first part of the file header: signature, length of the file, where the pixels begin.
pub open spec fn file_part(w: int, h: int) -> Seq<u8> {
    seq![0x42u8, 0x4D] + le32_bytes(file_size(w, h)) + zeros(4) + le32_bytes(HEADER)
}

/// The second part of the file header: one plane of 24-bit pixels, not compressed, rows from the
/// bottom up.
pub open spec fn info_part(w: int, h: int) -> Seq<u8> {
    le32_bytes(40) + le32_bytes(w as u32) + le32_bytes(h as u32) + seq![1u8, 0, 24, 0, 0, 0, 0, 0]
        + le32_bytes(pixel_bytes(w, h) as u32) + zeros(16)
}

/// The file header.
pub open spec fn bmp_header(w: int, h: int) -> Seq<u8> {
    file_part(w, h) + info_part(w, h)
}

/// What goes out before the pixels: the head of the response and the file header.
pub open spec fn preamble(w: int, h: int) -> Seq<u8> {
    head(Content::Bmp, file_size(w, h)) + bmp_header(w, h)
}

/// Bytes per pixel over the link.
pub open spec fn depth(expand565: bool) -> int {
    if expand565 {
        2
    } else {
        3
    }
}

/// Byte `k` of a pixel over the link: blue, green and red, each in the high bits of its byte; or the
/// two bytes of the RGB565 value, least significant first.
pub open spec fn pixel_byte(px: u32, expand565: bool, k: int) -> u8 {
    if expand565 {
        if k == 0 {
            (px % 256) as u8
        } else {
            (px / 256 % 256) as u8
        }
    } else {
        if k == 0 {
            (blue(px) * 8) as u8
        } else if k == 1 {
            (green(px) * 4) as u8
        } else {
            (red(px) * 8) as u8
        }
    }
}

/// Index in the frame of the pixel that is number `q` in the file: rows go from the bottom up.
pub open spec fn file_order(w: int, h: int, q: int) -> int {
    (h - 1 - q / w) * w + q % w
}

/// Length of the pixels over the link.
pub open spec fn body_len(w: int, h: int, expand565: bool) -> nat {
    (w * h * depth(expand565)) as nat
}

/// The pixels of a frame over the link.
pub open spec fn body(words: Seq<u32>, w: int, h: int, expand565: bool) -> Seq<u8> {
    Seq::new(
        body_len(w, h, expand565),
        |j: int|
            pixel_byte(
                pixel_at(words, file_order(w, h, j / depth(expand565))),
                expand565,
                j % depth(expand565),
            ),
    )
}

/// Write the first part of the file header into `out` from index `at` on.
fn put_file_part(out: &mut [u8], at: usize, w: usize, h: usize) -> (end: usize)
    requires
        declarable(w as int, h as int),
        0 <= w * h,
        at + 14 <= old(out)@.len(),
    ensures
        final(out)@ == splice(old(out)@, at as int, file_part(w as int, h as int)),
        end == at + 14,
{
    broadcast use lemma_splice_chain;

    let zero: [u8; 4] = [0; 4];
    assert(zero@ =~= zeros(4));
    let magic: [u8; 2] = [0x42, 0x4D];
    assert(magic@ =~= seq![0x42u8, 0x4D]);
    let n: usize = put_bytes(out, at, &magic);
    let n: usize = put_le32(out, n, HEADER + (w * h * 3) as u32);
    let n: usize = put_bytes(out, n, &zero);
    put_le32(out, n, HEADER)
}

/// Write the second part of the file header into `out` from index `at` on.
fn put_info_part(out: &mut [u8], at: usize, w: usize, h: usize) -> (end: usize)
    requires
        declarable(w as int, h as int),
        0 <= w * h,
        at + 40 <= old(out)@.len(),
    ensures
        final(out)@ == splice(old(out)@, at as int, info_part(w as int, h as int)),
        end == at + 40,
{
    broadcast use lemma_splice_chain;

    let format: [u8; 8] = [1, 0, 24, 0, 0, 0, 0, 0];
    assert(format@ =~= seq![1u8, 0, 24, 0, 0, 0, 0, 0]);
    let zero: [u8; 16] = [0; 16];
    assert(zero@ =~= zeros(16));
    let n: usize = put_le32(out, at, 40);
    let n: usize = put_le32(out, n, w as u32);
    let n: usize = put_le32(out, n, h as u32);
    let n: usize = put_bytes(out, n, &format);
    let n: usize = put_le32(out, n, (w * h * 3) as u32);
    put_bytes(out, n, &zero)
}

/// Write what goes out before the pixels to the front of `out`. Returns its length.
pub fn write_preamble(out: &mut [u8], w: usize, h: usize) -> (n: usize)
    requires
        declarable(w as int, h as int),
        preamble(w as int, h as int).len() <= old(out)@.len(),
    ensures
        final(out)@ == splice(old(out)@, 0, preamble(w as int, h as int)),
        n == preamble(w as int, h as int).len(),
{
    broadcast use lemma_splice_chain;

    assert(0 <= w * h <= w * h * 3) by (nonlinear_arith)
        requires
            0 <= w,
            0 <= h,
    ;
    let n: usize = write_head(out, Content::Bmp, HEADER + (w * h * 3) as u32);
    let ghost heads = head(Content::Bmp, file_size(w as int, h as int));
    assert(preamble(w as int, h as int) =~= heads + file_part(w as int, h as int) + info_part(
        w as int,
        h as int,
    ));
    let n: usize = put_file_part(out, n, w, h);
    put_info_part(out, n, w, h)
}

proof fn lemma_file_order(w: int, h: int, q: int)
    requires
        0 <= w,
        0 <= q < w * h,
    ensures
        0 < w,
        0 <= q / w < h,
        0 <= q % w < w,
        0 <= (h - 1 - q / w) * w <= file_order(w, h, q) < w * h,
{
    assert(0 < w) by (nonlinear_arith)
        requires
            0 <= w,
            0 <= q < w * h,
    ;
    assert(0 <= q / w < h && 0 <= q % w < w && 0 <= (h - 1 - q / w) * w && (h - 1 - q / w) * w + w
        <= w * h) by (nonlinear_arith)
        requires
            0 < w,
            0 <= q < w * h,
    {
        assert(q == (q / w) * w + q % w);
        assert((h - 1 - q / w) * w == h * w - w - (q / w) * w);
    }
}

/// Pixel number `q` of the file.
fn file_pixel(fb: &[u32], w: usize, h: usize, q: usize) -> (px: u32)
    requires
        holds_frame(fb@, w as int, h as int),
        q < w * h,
    ensures
        px == pixel_at(fb@, file_order(w as int, h as int, q as int)),
        px < 0x1_0000,
{
    proof {
        lemma_file_order(w as int, h as int, q as int);
    }
    pixel(fb, (h - 1 - q / w) * w + q % w)
}

/// Write the chunk of the pixels that begins at byte `at` to the front of `chunk`. Returns its
/// length.
pub fn fill_chunk(
    fb: &[u32],
    w: usize,
    h: usize,
    expand565: bool,
    at: usize,
    chunk: &mut [u8],
) -> (k: usize)
    requires
        holds_frame(fb@, w as int, h as int),
        at <= body_len(w as int, h as int, expand565) <= usize::MAX,
        at as int % depth(expand565) == 0,
        CHUNK <= old(chunk)@.len(),
    ensures
        final(chunk)@ == splice(
            old(chunk)@,
            0,
            body(fb@, w as int, h as int, expand565).subrange(
                at as int,
                chunk_end(body_len(w as int, h as int, expand565) as int, at as int),
            ),
        ),
        at + k == chunk_end(body_len(w as int, h as int, expand565) as int, at as int),
        (at + k) % depth(expand565) == 0,
{
    let ghost base = chunk@;
    let ghost all = body(fb@, w as int, h as int, expand565);
    assert(0 <= w * h) by (nonlinear_arith)
        requires
            0 <= w,
            0 <= h,
    ;
    let count: usize = w * h;
    let need: usize = if expand565 {
        2
    } else {
        3
    };
    let mut q: usize = at / need;
    let mut k: usize = 0;
    while q < count && k + need <= CHUNK
        invariant
            holds_frame(fb@, w as int, h as int),
            count == w * h,
            need == depth(expand565),
            all == body(fb@, w as int, h as int, expand565),
            all.len() == count * need <= usize::MAX,
            q <= count,
            k <= CHUNK <= base.len(),
            chunk@.len() == base.len(),
            at + k == q * need,
            k as int % depth(expand565) == 0,
            at as int % depth(expand565) == 0,
            chunk@ == splice(base, 0, all.subrange(at as int, at + k)),
        decreases count - q,
    {
        let px: u32 = file_pixel(fb, w, h, q);
        let ghost j = at + k;
        proof {
            assert(j / (need as int) == q && (j + 1) / (need as int) == q && (need == 3 ==> (j + 2)
                / (need as int) == q));
            assert(j % (need as int) == 0 && (j + 1) % (need as int) == 1 && (need == 3 ==> (j + 2)
                % (need as int) == 2));
            assert(q * need + need <= count * need) by (nonlinear_arith)
                requires
                    q < count,
            ;
        }
        if expand565 {
            chunk[k] = (px % 256) as u8;
            chunk[k + 1] = (px / 256) as u8;
        } else {
            chunk[k] = (px % 32 * 8) as u8;
            chunk[k + 1] = (px / 32 % 64 * 4) as u8;
            chunk[k + 2] = (px / 2048 % 32 * 8) as u8;
        }
        k = k + need;
        q = q + 1;
        assert(chunk@ =~= splice(base, 0, all.subrange(at as int, at + k)));
    }
    k
}

/// What is to be done next to serve a frame.
#[derive(Clone, Copy, Debug, PartialEq, Eq, Structural)]
pub enum Step {
    /// Push a frame with this command; its payload is the first `len` bytes of the buffer.
    Push { cmd: u8, len: usize },
    /// Everything was pushed: flush the pipeline; the outcome is what that gives.
    Flush,
    /// The client is gone: stop without flushing. The outcome is failure.
    Abort,
}

/// The command under which the pixels go out.
pub open spec fn body_cmd(expand565: bool) -> u8 {
    if expand565 {
        CMD_SEND565
    } else {
        CMD_SEND
    }
}

/// A frame being served: one pipeline across the preamble and every chunk of pixels.
pub struct Serving {
    w: usize,
    h: usize,
    expand565: bool,
    started: bool,
    at: usize,
    sent: u32,
}

impl Serving {
    /// Width of the frame.
    pub closed spec fn w(self) -> int {
        self.w as int
    }

    /// Height of the frame.
    pub closed spec fn h(self) -> int {
        self.h as int
    }

    /// The pixels go out as RGB565.
    pub closed spec fn expand565(self) -> bool {
        self.expand565
    }

    /// The preamble was pushed.
    pub closed spec fn started(self) -> bool {
        self.started
    }

    /// Bytes of the pixels that were pushed.
    pub closed spec fn at(self) -> int {
        self.at as int
    }

    /// Length of the pixels over the link.
    pub open spec fn len(self) -> int {
        body_len(self.w(), self.h(), self.expand565()) as int
    }

    /// Bytes that were pushed.
    pub open spec fn sent(self) -> int {
        if self.started() {
            preamble(self.w(), self.h()).len() + self.at()
        } else {
            0
        }
    }

    /// What holds of every frame being served.
    pub closed spec fn wf(self) -> bool {
        &&& declarable(self.w(), self.h())
        &&& self.len() <= usize::MAX
        &&& preamble(self.w(), self.h()).len() + self.len() <= u32::MAX
        &&& 0 <= self.at() <= self.len()
        &&& self.at() % depth(self.expand565) == 0
        &&& self.sent == self.sent()
        &&& !self.started ==> self.at == 0
    }

    /// Begin to serve a `w` x `h` frame. The bytes that go out must be countable in 32 bits.
    pub fn new(w: usize, h: usize, expand565: bool) -> (s: Serving)
        requires
            declarable(w as int, h as int),
            body_len(w as int, h as int, expand565) <= usize::MAX,
            preamble(w as int, h as int).len() + body_len(w as int, h as int, expand565)
                <= u32::MAX,
        ensures
            s.wf(),
            s.w() == w,
            s.h() == h,
            s.expand565() == expand565,
            !s.started(),
            s.at() == 0,
    {
        Serving { w, h, expand565, started: false, at: 0, sent: 0 }
    }

    /// Bytes that were pushed, the preamble among them.
    pub fn bytes_sent(&self) -> (n: u32)
        requires
            self.wf(),
        ensures
            n == self.sent(),
    {
        self.sent
    }

    /// The next step; `ok` says whether the pipeline has taken everything so far without a failure.
    /// On `Push` the payload stands in `buf`.
    pub fn serve_bmp(&mut self, fb: &[u32], buf: &mut [u8], ok: bool) -> (step: Step)
        requires
            old(self).wf(),
            holds_frame(fb@, old(self).w(), old(self).h()),
            CHUNK <= old(buf)@.len(),
        ensures
            final(self).wf(),
            final(self).w() == old(self).w(),
            final(self).h() == old(self).h(),
            final(self).expand565() == old(self).expand565(),
            final(self).started(),
            step == serve_step(*old(self), ok),
            ({
                let s = *old(self);
                let end = chunk_end(s.len(), s.at());
                if !s.started() {
                    &&& step == (Step::Push {
                        cmd: CMD_SEND,
                        len: preamble(s.w(), s.h()).len() as usize,
                    })
                    &&& final(self).at() == 0
                    &&& final(buf)@ == splice(old(buf)@, 0, preamble(s.w(), s.h()))
                } else if s.at() == s.len() {
                    &&& step == Step::Flush
                    &&& *final(self) == s
                    &&& final(buf)@ == old(buf)@
                } else if s.at() > 0 && !ok {
                    &&& step == Step::Abort
                    &&& *final(self) == s
                    &&& final(buf)@ == old(buf)@
                } else {
                    &&& step == (Step::Push {
                        cmd: body_cmd(s.expand565()),
                        len: (end - s.at()) as usize,
                    })
                    &&& final(self).at() == end
                    &&& final(buf)@ == splice(
                        old(buf)@,
                        0,
                        body(fb@, s.w(), s.h(), s.expand565()).subrange(s.at(), end),
                    )
                }
            }),
    {
        let ghost start = *self;
        if !self.started {
            proof {
                lemma_preamble_len(self.w(), self.h());
            }
            let n: usize = write_preamble(buf, self.w, self.h);
            self.started = true;
            self.sent = n as u32;
            return Step::Push { cmd: CMD_SEND, len: n };
        }
        assert(0 <= self.w() * self.h()) by (nonlinear_arith)
            requires
                0 <= self.w(),
                0 <= self.h(),
        ;
        let len: usize = if self.expand565 {
            self.w * self.h * 2
        } else {
            self.w * self.h * 3
        };
        if self.at == len {
            return Step::Flush;
        }
        if self.at > 0 && !ok {
            return Step::Abort;
        }
        let cmd: u8 = if self.expand565 {
            CMD_SEND565
        } else {
            CMD_SEND
        };
        let k: usize = fill_chunk(fb, self.w, self.h, self.expand565, self.at, buf);
        self.at = self.at + k;
        self.sent = self.sent + k as u32;
        Step::Push { cmd, len: k }
    }
}

/// What is to be done next to serve a frame; `ok` says that nothing failed so far.
pub open spec fn serve_step(s: Serving, ok: bool) -> Step {
    if !s.started() {
        Step::Push { cmd: CMD_SEND, len: preamble(s.w(), s.h()).len() as usize }
    } else if s.at() == s.len() {
        Step::Flush
    } else if s.at() > 0 && !ok {
        Step::Abort
    } else {
        Step::Push {
            cmd: body_cmd(s.expand565()),
            len: (chunk_end(s.len(), s.at()) - s.at()) as usize,
        }
    }
}

/// The preamble goes out first, and then the pixels, in pieces of 1440 bytes and a rest, until all of
/// them are out; only a failure behind the first piece stops that. Then the pipeline is flushed.
pub proof fn law_serve_steps(s: Serving, ok: bool)
    requires
        s.wf(),
    ensures
        s.len() == s.w() * s.h() * if s.expand565() {
            2
        } else {
            3int
        },
        s.sent() == if s.started() {
            preamble(s.w(), s.h()).len() + s.at()
        } else {
            0
        },
        !s.started() ==> serve_step(s, ok) == (Step::Push {
            cmd: 0x53,
            len: preamble(s.w(), s.h()).len() as usize,
        }),
        s.started() && s.at() >= s.len() ==> serve_step(s, ok) == Step::Flush,
        s.started() && 0 < s.at() < s.len() && !ok ==> serve_step(s, ok) == Step::Abort,
        s.started() && s.at() < s.len() && (ok || s.at() == 0) ==> {
            &&& serve_step(s, ok) matches Step::Push { cmd, len }
            &&& cmd == if s.expand565() {
                0x42u8
            } else {
                0x53
            }
            &&& 0 < len <= 1440
            &&& s.at() + len <= s.len()
            &&& len == 1440 || s.at() + len == s.len()
        },
{
    assert(0 <= s.w() * s.h()) by (nonlinear_arith)
        requires
            0 <= s.w(),
            0 <= s.h(),
    ;
}

/// The preamble fits a frame.
pub proof fn lemma_preamble_len(w: int, h: int)
    ensures
        preamble(w, h).len() == head(Content::Bmp, file_size(w, h)).len() + HEADER,
        136 <= preamble(w, h).len() <= 146,
{
    lemma_head_len(Content::Bmp, file_size(w, h));
}

/// The chunks that go out, one behind the other, are the pixels, and each fits a frame.
pub proof fn law_chunks_are_body(words: Seq<u32>, w: int, h: int, expand565: bool)
    ensures
        joined(chunks(body(words, w, h, expand565), 0)) == body(words, w, h, expand565),
        forall|i: int|
            0 <= i < chunks(body(words, w, h, expand565), 0).len() ==> 0 < (#[trigger] chunks(
                body(words, w, h, expand565),
                0,
            )[i]).len() <= CHUNK,
{
    let all = body(words, w, h, expand565);
    law_chunks(all, 0);
    assert(all.skip(0) =~= all);
}

/// The head of the response promises exactly what follows it: the file header and the pixels.
pub proof fn law_content_length(words: Seq<u32>, w: int, h: int)
    requires
        0 <= w * h,
        HEADER + pixel_bytes(w, h) <= u32::MAX,
    ensures
        bmp_header(w, h).len() + body(words, w, h, false).len() == file_size(w, h),
{
}

/// RGB565 takes two thirds of the bytes.
pub proof fn law_rgb565_saves_a_third(words: Seq<u32>, w: int, h: int)
    requires
        0 <= w * h,
    ensures
        3 * body(words, w, h, true).len() == 2 * body(words, w, h, false).len(),
{
}

/// Sending RGB565 loses nothing: the 24-bit pixels follow from it, pixel by pixel.
pub proof fn law_rgb565_lossless(words: Seq<u32>, w: int, h: int, q: int, k: int)
    requires
        0 <= q < w * h,
        0 <= k < 3,
    ensures
        body(words, w, h, false)[3 * q + k] == pixel_byte(
            (body(words, w, h, true)[2 * q] + 256 * body(words, w, h, true)[2 * q + 1]) as u32,
            false,
            k,
        ),
{
    let px = pixel_at(words, file_order(w, h, q));
    assert((3 * q + k) / 3 == q && (3 * q + k) % 3 == k);
    assert((2 * q) / 2 == q && (2 * q) % 2 == 0 && (2 * q + 1) / 2 == q && (2 * q + 1) % 2 == 1);
    assert(px < 0x1_0000);
    assert((px % 256) as u8 + 256 * ((px / 256 % 256) as u8) == px);
}

/// Rows go from the bottom up, each pixel once: the order of the file is its own inverse.
pub proof fn law_file_order(w: int, h: int, q: int)
    requires
        0 <= w,
        0 <= q < w * h,
    ensures
        0 <= file_order(w, h, q) < w * h,
        file_order(w, h, q) / w == h - 1 - q / w,
        file_order(w, h, q) % w == q % w,
        file_order(w, h, file_order(w, h, q)) == q,
{
    lemma_file_order(w, h, q);
    let r = h - 1 - q / w;
    let c = q % w;
    assert((r * w + c) / w == r && (r * w + c) % w == c) by (nonlinear_arith)
        requires
            0 <= c < w,
    ;
    assert((q / w) * w + q % w == q) by (nonlinear_arith)
        requires
            0 < w,
    ;
}

/// Every pixel of a frame goes out at its own place: that of row `row` and column `col` as number
/// `(h - 1 - row) * w + col`, since rows go from the bottom up. As it stands in the file it is a byte
/// each of blue, green and red, in the high bits; as RGB565 it is the pixel itself, low byte first.
pub proof fn law_body_pixels(words: Seq<u32>, w: int, h: int, row: int, col: int)
    requires
        0 <= row < h,
        0 <= col < w,
    ensures
        ({
            let px = pixel_at(words, row * w + col);
            let q = (h - 1 - row) * w + col;
            let (full, half) = (body(words, w, h, false), body(words, w, h, true));
            &&& full.len() == 3 * (w * h)
            &&& half.len() == 2 * (w * h)
            &&& 0 <= q < w * h
            &&& full[3 * q] == 8 * (px % 32)
            &&& full[3 * q + 1] == 4 * (px / 32 % 64)
            &&& full[3 * q + 2] == 8 * (px / 2048 % 32)
            &&& half[2 * q] + 256 * half[2 * q + 1] == px
        }),
{
    let q = (h - 1 - row) * w + col;
    assert(0 <= q < w * h && q / w == h - 1 - row && q % w == col) by (nonlinear_arith)
        requires
            0 <= row < h,
            0 <= col < w,
            q == (h - 1 - row) * w + col,
    ;
    assert(0 <= w * h * 3 && w * h * 3 == 3 * (w * h) && w * h * 2 == 2 * (w * h) && 0 <= w * h)
        by (nonlinear_arith)
        requires
            0 < w,
            0 < h,
    ;
    assert(file_order(w, h, q) == row * w + col);
    let px = pixel_at(words, row * w + col);
    assert((3 * q) / 3 == q && (3 * q) % 3 == 0);
    assert((3 * q + 1) / 3 == q && (3 * q + 1) % 3 == 1);
    assert((3 * q + 2) / 3 == q && (3 * q + 2) % 3 == 2);
    assert((2 * q) / 2 == q && (2 * q) % 2 == 0 && (2 * q + 1) / 2 == q && (2 * q + 1) % 2 == 1);
    assert(px < 0x1_0000);
    assert((px % 256) as u8 + 256 * ((px / 256 % 256) as u8) == px);
}

/// The number in the four bytes of `s` from index `i` on, least significant first.
pub open spec fn le32_at(s: Seq<u8>, i: int) -> int {
    s[i] + 256 * s[i + 1] + 0x1_0000 * s[i + 2] + 0x100_0000 * s[i + 3]
}

/// The file header declares what follows it: a file of 54 bytes and three for each pixel, width and
/// height, 24 bits to a pixel, and no compression.
pub proof fn law_bmp_header(w: int, h: int)
    requires
        0 <= w <= u32::MAX,
        0 <= h <= u32::MAX,
        54 + 3 * (w * h) <= u32::MAX,
        0 <= w * h,
    ensures
        bmp_header(w, h).len() == 54,
        bmp_header(w, h)[0] == 66,
        bmp_header(w, h)[1] == 77,
        le32_at(bmp_header(w, h), 2) == 54 + 3 * (w * h),
        le32_at(bmp_header(w, h), 6) == 0,
        le32_at(bmp_header(w, h), 10) == 54,
        le32_at(bmp_header(w, h), 14) == 40,
        le32_at(bmp_header(w, h), 18) == w,
        le32_at(bmp_header(w, h), 22) == h,
        le32_at(bmp_header(w, h), 26) == 1 + 0x1_0000 * 24,
        le32_at(bmp_header(w, h), 30) == 0,
        le32_at(bmp_header(w, h), 34) == 3 * (w * h),
        forall|i: int| 38 <= i < 54 ==> #[trigger] bmp_header(w, h)[i] == 0,
        file_size(w, h) == 54 + 3 * (w * h),
{
    assert(w * h * 3 == 3 * (w * h)) by (nonlinear_arith);
    law_le32(file_size(w, h));
    law_le32(HEADER);
    law_le32(40);
    law_le32(w as u32);
    law_le32(h as u32);
    law_le32(pixel_bytes(w, h) as u32);
}

/// What goes out before the pixels is a head for the whole file, and the file header.
pub proof fn law_preamble(w: int, h: int)
    requires
        54 + 3 * (w * h) <= u32::MAX,
        0 <= w * h,
    ensures
        preamble(w, h) == head(Content::Bmp, (54 + 3 * (w * h)) as u32) + bmp_header(w, h),
{
    assert(w * h * 3 == 3 * (w * h)) by (nonlinear_arith);
}

/// Pixels go out under the command that says how the modem is to take them.
pub proof fn law_body_cmd()
    ensures
        body_cmd(false) == 0x53,
        body_cmd(true) == 0x42,
{
}

/// What `fill_chunk` does: it fills a chunk with the next 1440 bytes of the pixels, or all that is
/// left, and every pixel of the frame that falls into it stands at its own place, rows from the
/// bottom up.
pub proof fn law_fill_chunk(
    fb: &[u32],
    w: usize,
    h: usize,
    expand565: bool,
    at: usize,
    chunk: &mut [u8],
    k: usize,
    row: int,
    col: int,
)
    requires
        0 <= row < h,
        0 <= col < w,
        1440 <= old(chunk)@.len(),
        at <= w * h * if expand565 {
            2
        } else {
            3int
        },
        call_ensures(fill_chunk, (fb, w, h, expand565, at, chunk), k),
    ensures
        ({
            let total = w * h * if expand565 {
                2
            } else {
                3int
            };
            let px = pixel_at(fb@, row * w + col);
            let q = (h - 1 - row) * w + col;
            let out = final(chunk)@;
            &&& k == if total - at < 1440 {
                total - at
            } else {
                1440
            }
            &&& out.len() == old(chunk)@.len()
            &&& out.skip(k as int) == old(chunk)@.skip(k as int)
            &&& !expand565 && at <= 3 * q && 3 * q + 3 <= at + k ==> {
                &&& out[3 * q - at] == 8 * (px % 32)
                &&& out[3 * q + 1 - at] == 4 * (px / 32 % 64)
                &&& out[3 * q + 2 - at] == 8 * (px / 2048 % 32)
            }
            &&& expand565 && at <= 2 * q && 2 * q + 2 <= at + k ==> out[2 * q - at] + 256 * out[2 * q
                + 1 - at] == px
        }),
{
    law_body_pixels(fb@, w as int, h as int, row, col);
    assert(w * h * 3 == 3 * (w * h) && w * h * 2 == 2 * (w * h) && 0 <= w * h) by (nonlinear_arith);
    let out = final(chunk)@;
    let piece = body(fb@, w as int, h as int, expand565).subrange(at as int, at + k);
    assert(out == splice(old(chunk)@, 0, piece));
    assert(out.skip(k as int) =~= old(chunk)@.skip(k as int));
}

/// What `write_preamble` does: it writes a head that names the length of the whole file, and the file
/// header.
pub proof fn law_write_preamble(out: &mut [u8], w: usize, h: usize, n: usize)
    requires
        54 + 3 * (w * h) <= u32::MAX,
        200 <= old(out)@.len(),
        call_ensures(write_preamble, (out, w, h), n),
    ensures
        final(out)@.take(n as int) == head(Content::Bmp, (54 + 3 * (w * h)) as u32) + bmp_header(
            w as int,
            h as int,
        ),
        final(out)@.skip(n as int) == old(out)@.skip(n as int),
{
    assert(0 <= w * h) by (nonlinear_arith);
    law_preamble(w as int, h as int);
    lemma_preamble_len(w as int, h as int);
    assert(final(out)@.take(n as int) =~= preamble(w as int, h as int));
    assert(final(out)@.skip(n as int) =~= old(out)@.skip(n as int));
}

/// What `Serving::serve_bmp` does: the preamble first, then the pixels in order and without a gap,
/// until all of them are out or the client is gone.
pub proof fn law_serve_bmp(
    s: &mut Serving,
    fb: &[u32],
    buf: &mut [u8],
    ok: bool,
    step: Step,
)
    requires
        old(s).wf(),
        1440 <= old(buf)@.len() <= usize::MAX,
        call_ensures(Serving::serve_bmp, (s, fb, buf, ok), step),
    ensures
        !old(s).started() ==> {
            &&& step matches Step::Push { cmd, len }
            &&& cmd == 0x53
            &&& final(buf)@.take(len as int) == preamble(old(s).w(), old(s).h())
        },
        old(s).started() && old(s).at() == old(s).len() ==> step == Step::Flush,
        old(s).started() && old(s).at() < old(s).len() && (ok || old(s).at() == 0) ==> {
            &&& step matches Step::Push { cmd, len }
            &&& cmd == if old(s).expand565() {
                0x42u8
            } else {
                0x53
            }
            &&& 0 < len <= 1440
            &&& final(s).at() == old(s).at() + len
            &&& final(buf)@.take(len as int) == body(
                fb@,
                old(s).w(),
                old(s).h(),
                old(s).expand565(),
            ).subrange(old(s).at(), old(s).at() + len)
        },
        old(s).started() && 0 < old(s).at() < old(s).len() && !ok ==> step == Step::Abort,
{
    law_serve_steps(*old(s), ok);
    lemma_preamble_len(old(s).w(), old(s).h());
    match step {
        Step::Push { cmd, len } => {
            if !old(s).started() {
                assert(final(buf)@.take(len as int) =~= preamble(old(s).w(), old(s).h()));
            } else {
                assert(final(buf)@.take(len as int) =~= body(
                    fb@,
                    old(s).w(),
                    old(s).h(),
                    old(s).expand565(),
                ).subrange(old(s).at(), old(s).at() + len));
            }
        },
        _ => {},
    }
}

} // verus!
