//! Text and numbers in byte buffers.

use vstd::prelude::*;
use vstd::string::{is_ascii_spec_bytes, StringSliceAdditionalSpecFns};
use vstd::utf8::is_ascii_chars;

use crate::bytes::{lemma_word_bytes, splice};

verus! {

/// ASCII characters as bytes.
pub open spec fn ascii(chars: Seq<char>) -> Seq<u8> {
    Seq::new(chars.len(), |i: int| chars[i] as u8)
}

/// The decimal digits of `v`, most significant first.
pub open spec fn digits(v: nat) -> Seq<u8>
    decreases v,
{
    if v < 10 {
        seq![(48 + v) as u8]
    } else {
        digits(v / 10).push((48 + v % 10) as u8)
    }
}

/// The number that a string of decimal digits stands for.
pub open spec fn number(ds: Seq<u8>) -> int
    decreases ds.len(),
{
    if ds.len() == 0 {
        0
    } else {
        number(ds.drop_last()) * 10 + (ds.last() - 48)
    }
}

/// The four bytes of `v`, least significant first.
pub open spec fn le32_bytes(v: u32) -> Seq<u8> {
    seq![
        (v % 256) as u8,
        (v / 256 % 256) as u8,
        (v / 0x1_0000 % 256) as u8,
        (v / 0x100_0000) as u8,
    ]
}

/// The digits of a number stand for it, are digits, and do not begin with a superfluous zero.
pub proof fn law_digits(v: nat)
    ensures
        number(digits(v)) == v,
        digits(v).len() > 0,
        forall|i: int| 0 <= i < digits(v).len() ==> 48 <= #[trigger] digits(v)[i] <= 57,
        v > 0 ==> digits(v)[0] != 48,
    decreases v,
{
    if v >= 10 {
        law_digits(v / 10);
        assert(digits(v).drop_last() =~= digits(v / 10));
    } else {
        assert(digits(v).drop_last() =~= Seq::empty());
        assert(number(Seq::<u8>::empty()) == 0);
    }
}

/// A number below a power of ten has at most as many digits as the power has zeros.
pub proof fn lemma_digits_len(v: nat, n: nat)
    requires
        n > 0,
        v < vstd::arithmetic::power::pow(10, n),
    ensures
        digits(v).len() <= n,
    decreases n,
{
    reveal_with_fuel(vstd::arithmetic::power::pow, 2);
    if v >= 10 {
        lemma_digits_len(v / 10, (n - 1) as nat);
    }
}

/// A 32-bit number has at most ten digits.
pub proof fn lemma_digits_u32(v: u32)
    ensures
        1 <= digits(v as nat).len() <= 10,
{
    law_digits(v as nat);
    assert(vstd::arithmetic::power::pow(10, 10) == 10_000_000_000) by {
        reveal_with_fuel(vstd::arithmetic::power::pow, 11);
    }
    lemma_digits_len(v as nat, 10);
}

/// Little-endian bytes give the number back.
pub proof fn law_le32(v: u32)
    ensures
        le32_bytes(v)[0] + 256 * le32_bytes(v)[1] + 0x1_0000 * le32_bytes(v)[2] + 0x100_0000
            * le32_bytes(v)[3] == v,
{
    lemma_word_bytes(v);
    assert(le32_bytes(v)[3] == v / 0x100_0000);
}

/// Write the decimal digits of `v` to the front of `out`. Returns their number.
pub fn write_dec(out: &mut [u8], v: u32) -> (n: usize)
    requires
        digits(v as nat).len() <= old(out)@.len(),
    ensures
        final(out)@ == splice(old(out)@, 0, digits(v as nat)),
        n == digits(v as nat).len(),
{
    let ghost base = out@;
    let mut tmp: [u8; 10] = [0; 10];
    let mut rest: u32 = v;
    let mut i: usize = 0;
    proof {
        lemma_digits_u32(v);
    }
    // tmp[..i] holds the last i digits of v, in reverse.
    while rest >= 10
        invariant
            i + digits(rest as nat).len() == digits(v as nat).len(),
            digits(v as nat).len() <= 10,
            forall|k: int|
                0 <= k < i ==> #[trigger] tmp@[k] == digits(v as nat)[digits(v as nat).len() - 1 - k],
            forall|k: int|
                0 <= k < digits(rest as nat).len() ==> #[trigger] digits(rest as nat)[k] == digits(
                    v as nat,
                )[k],
        decreases rest,
    {
        let ghost ds = digits(rest as nat);
        proof {
            law_digits((rest / 10) as nat);
            assert(ds == digits((rest / 10) as nat).push((48 + rest % 10) as u8));
            assert(ds[ds.len() - 1] == digits(v as nat)[ds.len() - 1]);
            assert forall|k: int| 0 <= k < ds.len() - 1 implies #[trigger] digits(
                (rest / 10) as nat,
            )[k] == digits(v as nat)[k] by {
                assert(ds[k] == digits(v as nat)[k]);
            }
        }
        tmp[i] = (48 + rest % 10) as u8;
        rest = rest / 10;
        i = i + 1;
    }
    proof {
        assert(digits(rest as nat)[0] == digits(v as nat)[0]);
    }
    tmp[i] = (48 + rest) as u8;
    i = i + 1;
    let mut k: usize = 0;
    while k < i
        invariant
            k <= i <= 10,
            i == digits(v as nat).len(),
            i <= base.len(),
            forall|k: int|
                0 <= k < i ==> #[trigger] tmp@[k] == digits(v as nat)[digits(v as nat).len() - 1 - k],
            out@ == splice(base, 0, digits(v as nat).take(k as int)),
        decreases i - k,
    {
        out[k] = tmp[i - 1 - k];
        k = k + 1;
        assert(out@ =~= splice(base, 0, digits(v as nat).take(k as int)));
    }
    assert(digits(v as nat).take(i as int) =~= digits(v as nat));
    i
}

/// Copy `s` into `out` from index `at` on. Returns its length.
pub fn append(out: &mut [u8], at: usize, s: &[u8]) -> (n: usize)
    requires
        at + s@.len() <= old(out)@.len(),
    ensures
        final(out)@ == splice(old(out)@, at as int, s@),
        n == s@.len(),
{
    let ghost base = out@;
    let room: usize = out.len();
    let mut k: usize = 0;
    while k < s.len()
        invariant
            k <= s@.len(),
            at + s@.len() <= base.len() == room,
            base.len() == out@.len(),
            out@ == splice(base, at as int, s@.take(k as int)),
        decreases s@.len() - k,
    {
        out[at + k] = s[k];
        k = k + 1;
        assert(out@ =~= splice(base, at as int, s@.take(k as int)));
    }
    assert(s@.take(k as int) =~= s@);
    k
}

/// Write `v` to the front of `out`, least significant byte first.
pub fn le32(out: &mut [u8], v: u32)
    requires
        4 <= old(out)@.len(),
    ensures
        final(out)@ == splice(old(out)@, 0, le32_bytes(v)),
{
    let ghost base = out@;
    out[0] = (v % 256) as u8;
    out[1] = (v / 256 % 256) as u8;
    out[2] = (v / 0x1_0000 % 256) as u8;
    out[3] = (v / 0x100_0000) as u8;
    assert(out@ =~= splice(base, 0, le32_bytes(v)));
}

/// An ASCII string as bytes.
pub fn bytes_of(s: &str) -> (b: &[u8])
    requires
        is_ascii_chars(s@),
    ensures
        b@ == ascii(s@),
{
    proof {
        is_ascii_spec_bytes(s);
        assert(s.spec_bytes() =~= ascii(s@));
    }
    s.as_bytes()
}

/// Write `v` into `out` from index `at` on, least significant byte first. Returns the index behind
/// it.
pub fn put_le32(out: &mut [u8], at: usize, v: u32) -> (end: usize)
    requires
        at + 4 <= old(out)@.len(),
    ensures
        final(out)@ == splice(old(out)@, at as int, le32_bytes(v)),
        end == at + 4,
{
    let ghost base = out@;
    let room: usize = out.len();
    let (_, rest) = out.split_at_mut(at);
    le32(rest, v);
    assert(out@ =~= splice(base, at as int, le32_bytes(v)));
    assert(at + 4 <= room);
    at + 4
}

/// Copy `s` into `out` from index `at` on. Returns the index behind it.
pub fn put_bytes(out: &mut [u8], at: usize, s: &[u8]) -> (end: usize)
    requires
        at + s@.len() <= old(out)@.len(),
    ensures
        final(out)@ == splice(old(out)@, at as int, s@),
        end == at + s@.len(),
{
    let room: usize = out.len();
    let n: usize = append(out, at, s);
    assert(at + n <= room);
    at + n
}

/// Write the ASCII string `s` into `out` from index `at` on. Returns the index behind it.
pub fn put_text(out: &mut [u8], at: usize, s: &str) -> (end: usize)
    requires
        is_ascii_chars(s@),
        at + s@.len() <= old(out)@.len(),
    ensures
        final(out)@ == splice(old(out)@, at as int, ascii(s@)),
        end == at + s@.len(),
{
    put_bytes(out, at, bytes_of(s))
}

/// Write the decimal digits of `v` into `out` from index `at` on. Returns the index behind them.
pub fn put_number(out: &mut [u8], at: usize, v: u32) -> (end: usize)
    requires
        at + digits(v as nat).len() <= old(out)@.len(),
    ensures
        final(out)@ == splice(old(out)@, at as int, digits(v as nat)),
        end == at + digits(v as nat).len(),
{
    let ghost base = out@;
    let room: usize = out.len();
    let (_, rest) = out.split_at_mut(at);
    let n: usize = write_dec(rest, v);
    assert(out@ =~= splice(base, at as int, digits(v as nat)));
    assert(at + n <= room);
    at + n
}

/// Text is a byte for each of its characters.
pub proof fn law_ascii(chars: Seq<char>, i: int, c: char)
    requires
        0 <= i < chars.len(),
        chars[i] == c,
        c as int <= 127,
    ensures
        ascii(chars).len() == chars.len(),
        ascii(chars)[i] as int == c as int,
{
}

} // verus!
