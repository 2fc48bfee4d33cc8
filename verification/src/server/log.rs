//! Lines on the console. None of them shows the credentials of the network.

use vstd::prelude::*;

use crate::bytes::{lemma_splice_chain, splice};
use crate::text::{ascii, digits, lemma_digits_u32, put_number, put_text};

verus! {

/// Two numbers with a dot between them.
pub open spec fn dotted(a: u8, b: u8) -> Seq<u8> {
    digits(a as nat) + ascii("."@) + digits(b as nat)
}

/// The line that shows the address of the server.
pub open spec fn address_line(ip: Seq<u8>) -> Seq<u8> {
    ascii("http://"@) + dotted(ip[0], ip[1]) + ascii("."@) + dotted(ip[2], ip[3]) + ascii("/\n"@)
}

/// How a line on a served BMP file begins: number, resolution, denoising, RGB565.
pub open spec fn bmp_part(frame: u32, res: u32, denoise: bool, expand565: bool) -> Seq<u8> {
    ascii("frame "@) + digits(frame as nat) + ascii(" r"@) + digits(res as nat) + ascii(
        if denoise {
            " d1"@
        } else {
            " d0"@
        },
    ) + ascii(
        if expand565 {
            " e1"@
        } else {
            " e0"@
        },
    )
}

/// How a line on a served file ends: bytes and time.
pub open spec fn cost_part(bytes: u32, ms: u32) -> Seq<u8> {
    digits(bytes as nat) + ascii("B "@) + digits(ms as nat) + ascii("ms\n"@)
}

/// The line on a served BMP file.
pub open spec fn bmp_line(
    frame: u32,
    res: u32,
    denoise: bool,
    expand565: bool,
    ok: bool,
    bytes: u32,
    ms: u32,
) -> Seq<u8> {
    bmp_part(frame, res, denoise, expand565) + ascii(
        if ok {
            " ok "@
        } else {
            " abort "@
        },
    ) + cost_part(bytes, ms)
}

/// The line on a served JPEG file.
pub open spec fn jpeg_line(frame: u32, found: bool, bytes: u32, ms: u32) -> Seq<u8> {
    ascii("frame "@) + digits(frame as nat) + ascii(
        if found {
            " JPG "@
        } else {
            " JPG-NOTFOUND "@
        },
    ) + cost_part(bytes, ms)
}

/// The milliseconds from `start` to `now`, as a line shows them.
pub fn elapsed_ms(start: u64, now: u64) -> (ms: u32)
    ensures
        ms == now.wrapping_sub(start) as u32,
{
    now.wrapping_sub(start) as u32
}

fn put_dotted(out: &mut [u8], at: usize, a: u8, b: u8) -> (end: usize)
    requires
        at + dotted(a, b).len() <= old(out)@.len(),
    ensures
        final(out)@ == splice(old(out)@, at as int, dotted(a, b)),
        end == at + dotted(a, b).len(),
{
    broadcast use lemma_splice_chain;

    proof {
        reveal_strlit(".");
    }
    let n: usize = put_number(out, at, a as u32);
    let n: usize = put_text(out, n, ".");
    put_number(out, n, b as u32)
}

/// Write the line that shows the address of the server to the front of `out`.
pub fn write_address(out: &mut [u8], ip: &[u8; 4]) -> (n: usize)
    requires
        address_line(ip@).len() <= old(out)@.len(),
    ensures
        final(out)@ == splice(old(out)@, 0, address_line(ip@)),
        n == address_line(ip@).len(),
{
    broadcast use lemma_splice_chain;

    proof {
        reveal_strlit("http://");
        reveal_strlit(".");
        reveal_strlit("/\n");
    }
    let n: usize = put_text(out, 0, "http://");
    let n: usize = put_dotted(out, n, ip[0], ip[1]);
    let n: usize = put_text(out, n, ".");
    let n: usize = put_dotted(out, n, ip[2], ip[3]);
    put_text(out, n, "/\n")
}

fn put_cost(out: &mut [u8], at: usize, bytes: u32, ms: u32) -> (end: usize)
    requires
        at + cost_part(bytes, ms).len() <= old(out)@.len(),
    ensures
        final(out)@ == splice(old(out)@, at as int, cost_part(bytes, ms)),
        end == at + cost_part(bytes, ms).len(),
{
    broadcast use lemma_splice_chain;

    proof {
        reveal_strlit("B ");
        reveal_strlit("ms\n");
    }
    let n: usize = put_number(out, at, bytes);
    let n: usize = put_text(out, n, "B ");
    let n: usize = put_number(out, n, ms);
    put_text(out, n, "ms\n")
}

fn write_bmp_part(out: &mut [u8], frame: u32, res: u32, denoise: bool, expand565: bool) -> (n:
    usize)
    requires
        bmp_part(frame, res, denoise, expand565).len() <= old(out)@.len(),
    ensures
        final(out)@ == splice(old(out)@, 0, bmp_part(frame, res, denoise, expand565)),
        n == bmp_part(frame, res, denoise, expand565).len(),
{
    broadcast use lemma_splice_chain;

    proof {
        reveal_strlit("frame ");
        reveal_strlit(" r");
        reveal_strlit(" d1");
        reveal_strlit(" d0");
        reveal_strlit(" e1");
        reveal_strlit(" e0");
    }
    let n: usize = put_text(out, 0, "frame ");
    let n: usize = put_number(out, n, frame);
    let n: usize = put_text(out, n, " r");
    let n: usize = put_number(out, n, res);
    let d: &str = if denoise {
        " d1"
    } else {
        " d0"
    };
    let n: usize = put_text(out, n, d);
    let e: &str = if expand565 {
        " e1"
    } else {
        " e0"
    };
    put_text(out, n, e)
}

/// Write the line on a served BMP file to the front of `out`.
pub fn write_bmp_line(
    out: &mut [u8],
    frame: u32,
    res: u32,
    denoise: bool,
    expand565: bool,
    ok: bool,
    bytes: u32,
    ms: u32,
) -> (n: usize)
    requires
        bmp_line(frame, res, denoise, expand565, ok, bytes, ms).len() <= old(out)@.len(),
    ensures
        final(out)@ == splice(
            old(out)@,
            0,
            bmp_line(frame, res, denoise, expand565, ok, bytes, ms),
        ),
        n == bmp_line(frame, res, denoise, expand565, ok, bytes, ms).len(),
{
    broadcast use lemma_splice_chain;

    proof {
        reveal_strlit(" ok ");
        reveal_strlit(" abort ");
    }
    let n: usize = write_bmp_part(out, frame, res, denoise, expand565);
    let outcome: &str = if ok {
        " ok "
    } else {
        " abort "
    };
    let n: usize = put_text(out, n, outcome);
    put_cost(out, n, bytes, ms)
}

/// Write the line on a served JPEG file to the front of `out`.
pub fn write_jpeg_line(out: &mut [u8], frame: u32, found: bool, bytes: u32, ms: u32) -> (n: usize)
    requires
        jpeg_line(frame, found, bytes, ms).len() <= old(out)@.len(),
    ensures
        final(out)@ == splice(old(out)@, 0, jpeg_line(frame, found, bytes, ms)),
        n == jpeg_line(frame, found, bytes, ms).len(),
{
    broadcast use lemma_splice_chain;

    proof {
        reveal_strlit("frame ");
        reveal_strlit(" JPG ");
        reveal_strlit(" JPG-NOTFOUND ");
    }
    let n: usize = put_text(out, 0, "frame ");
    let n: usize = put_number(out, n, frame);
    let outcome: &str = if found {
        " JPG "
    } else {
        " JPG-NOTFOUND "
    };
    let n: usize = put_text(out, n, outcome);
    put_cost(out, n, bytes, ms)
}

/// A buffer of 80 bytes holds every line.
pub proof fn law_lines_fit(
    ip: Seq<u8>,
    frame: u32,
    res: u32,
    denoise: bool,
    expand565: bool,
    ok: bool,
    bytes: u32,
    ms: u32,
)
    requires
        ip.len() == 4,
    ensures
        address_line(ip).len() <= 80,
        bmp_line(frame, res, denoise, expand565, ok, bytes, ms).len() <= 80,
        jpeg_line(frame, ok, bytes, ms).len() <= 80,
{
    reveal_strlit("http://");
    reveal_strlit(".");
    reveal_strlit("/\n");
    reveal_strlit("B ");
    reveal_strlit("ms\n");
    reveal_strlit("frame ");
    reveal_strlit(" r");
    reveal_strlit(" d1");
    reveal_strlit(" d0");
    reveal_strlit(" e1");
    reveal_strlit(" e0");
    reveal_strlit(" ok ");
    reveal_strlit(" abort ");
    reveal_strlit(" JPG ");
    reveal_strlit(" JPG-NOTFOUND ");
    lemma_digits_u32(ip[0] as u32);
    lemma_digits_u32(ip[1] as u32);
    lemma_digits_u32(ip[2] as u32);
    lemma_digits_u32(ip[3] as u32);
    lemma_digits_u32(frame);
    lemma_digits_u32(res);
    lemma_digits_u32(bytes);
    lemma_digits_u32(ms);
}

/// A line says with what result which file was served, how many bytes went out, and how long that
/// took; the numbers are given in full.
pub proof fn law_jpeg_line(frame: u32, bytes: u32, ms: u32)
    ensures
        jpeg_line(frame, true, bytes, ms) == ascii("frame "@) + digits(frame as nat) + ascii(
            " JPG "@,
        ) + digits(bytes as nat) + ascii("B "@) + digits(ms as nat) + ascii("ms\n"@),
        jpeg_line(frame, false, bytes, ms) == ascii("frame "@) + digits(frame as nat) + ascii(
            " JPG-NOTFOUND "@,
        ) + digits(bytes as nat) + ascii("B "@) + digits(ms as nat) + ascii("ms\n"@),
{
    assert(jpeg_line(frame, true, bytes, ms) =~= ascii("frame "@) + digits(frame as nat) + ascii(
        " JPG "@,
    ) + digits(bytes as nat) + ascii("B "@) + digits(ms as nat) + ascii("ms\n"@));
    assert(jpeg_line(frame, false, bytes, ms) =~= ascii("frame "@) + digits(frame as nat) + ascii(
        " JPG-NOTFOUND "@,
    ) + digits(bytes as nat) + ascii("B "@) + digits(ms as nat) + ascii("ms\n"@));
}

/// A line on a BMP file gives its number, resolution and flags, the outcome, and what it took; the
/// numbers are given in full.
pub proof fn law_bmp_line(
    frame: u32,
    res: u32,
    denoise: bool,
    expand565: bool,
    ok: bool,
    bytes: u32,
    ms: u32,
)
    ensures
        bmp_line(frame, res, denoise, expand565, ok, bytes, ms) == ascii("frame "@) + digits(
            frame as nat,
        ) + ascii(" r"@) + digits(res as nat) + (if denoise {
            ascii(" d1"@)
        } else {
            ascii(" d0"@)
        }) + (if expand565 {
            ascii(" e1"@)
        } else {
            ascii(" e0"@)
        }) + (if ok {
            ascii(" ok "@)
        } else {
            ascii(" abort "@)
        }) + digits(bytes as nat) + ascii("B "@) + digits(ms as nat) + ascii("ms\n"@),
{
    assert(bmp_line(frame, res, denoise, expand565, ok, bytes, ms) =~= bmp_part(
        frame,
        res,
        denoise,
        expand565,
    ) + (if ok {
        ascii(" ok "@)
    } else {
        ascii(" abort "@)
    }) + digits(bytes as nat) + ascii("B "@) + digits(ms as nat) + ascii("ms\n"@));
}

/// An address is shown as its four numbers with dots between them.
pub proof fn law_address_line(ip: Seq<u8>)
    ensures
        address_line(ip) == ascii("http://"@) + digits(ip[0] as nat) + ascii("."@) + digits(
            ip[1] as nat,
        ) + ascii("."@) + digits(ip[2] as nat) + ascii("."@) + digits(ip[3] as nat) + ascii("/\n"@),
{
    assert(address_line(ip) =~= ascii("http://"@) + digits(ip[0] as nat) + ascii("."@) + digits(
        ip[1] as nat,
    ) + ascii("."@) + digits(ip[2] as nat) + ascii("."@) + digits(ip[3] as nat) + ascii("/\n"@));
}

} // verus!
