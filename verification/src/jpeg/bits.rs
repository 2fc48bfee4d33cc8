//! Bit strings, and a writer that packs them into entropy-coded bytes.

use vstd::prelude::*;

use crate::bytes::{lemma_splice_concat, lemma_splice_empty, splice};

verus! {

/// The low `size` bits of `v`, most significant first.
pub open spec fn bits_of(v: u32, size: nat) -> Seq<bool> {
    Seq::new(size, |i: int| (v >> ((size - 1 - i) as u32)) & 1u32 == 1u32)
}

/// Bit `j` of a 32-bit word, counted from the most significant one.
pub open spec fn word_bit(w: u32, j: int) -> bool {
    (w >> ((31 - j) as u32)) & 1u32 == 1u32
}

pub open spec fn bit_value(b: bool) -> int {
    if b {
        1
    } else {
        0
    }
}

/// The byte whose bits are the eight bits of `s` from `at` on.
pub open spec fn octet(s: Seq<bool>, at: int) -> u8 {
    (128 * bit_value(s[at]) + 64 * bit_value(s[at + 1]) + 32 * bit_value(s[at + 2]) + 16
        * bit_value(s[at + 3]) + 8 * bit_value(s[at + 4]) + 4 * bit_value(s[at + 5]) + 2
        * bit_value(s[at + 6]) + bit_value(s[at + 7])) as u8
}

/// The whole bytes of a bit string. A tail of fewer than eight bits is left out.
pub open spec fn pack(s: Seq<bool>) -> Seq<u8> {
    Seq::new(s.len() / 8, |i: int| octet(s, 8 * i))
}

/// One byte of entropy-coded data as it goes into the file: a zero follows 0xFF.
pub open spec fn stuffed_byte(b: u8) -> Seq<u8> {
    if b == 0xFF {
        seq![0xFFu8, 0u8]
    } else {
        seq![b]
    }
}

/// Byte stuffing of a whole string.
pub open spec fn stuff(s: Seq<u8>) -> Seq<u8>
    decreases s.len(),
{
    if s.len() == 0 {
        Seq::empty()
    } else {
        stuff(s.drop_last()) + stuffed_byte(s.last())
    }
}

/// `s` followed by as many 1-bits as it takes to reach a byte boundary.
pub open spec fn pad(s: Seq<bool>) -> Seq<bool> {
    s + Seq::new(((8 - s.len() % 8) % 8) as nat, |i: int| true)
}

/// The entropy-coded bytes that stand for the bit string `s`.
pub open spec fn entropy_bytes(s: Seq<bool>) -> Seq<u8> {
    stuff(pack(pad(s)))
}

/// A writer of bit strings with byte stuffing, into a caller's buffer.
pub struct BitW<'a> {
    pub buf: &'a mut [u8],
    /// Bytes that were to be stored so far, whether they found room or not.
    pub pos: usize,
    /// The bits not yet stored, left-aligned.
    pub acc: u32,
    /// How many bits `acc` holds.
    pub n: u32,
    /// Whether a byte found no room.
    pub overflow: bool,
    /// Every bit that was put.
    pub bits: Ghost<Seq<bool>>,
    /// What the buffer held at first.
    pub base: Ghost<Seq<u8>>,
}

/// The low `size` bits of `code` join an accumulator behind its first `n` bits.
proof fn lemma_join(acc: u32, code: u32, n: u32, size: u32, j: u32)
    by (bit_vector)
    requires
        1 <= size < 32,
        n + size <= 32,
        j < 32,
    ensures
        1u32 << size >= 1,
        ((acc | ((code & ((1u32 << size) - 1) as u32) << ((32 - n - size) as u32))) >> ((31
            - j) as u32)) & 1 == if n <= j && j < n + size {
            ((acc >> ((31 - j) as u32)) & 1) | ((code >> ((size - 1 - (j - n)) as u32)) & 1)
        } else {
            (acc >> ((31 - j) as u32)) & 1
        },
{
}

/// Dropping the top byte moves every other bit up by eight.
proof fn lemma_shift_out(acc: u32, j: u32)
    by (bit_vector)
    requires
        j < 32,
    ensures
        ((acc << 8) >> ((31 - j) as u32)) & 1 == (if j < 24 {
            (acc >> ((23 - j) as u32)) & 1
        } else {
            0
        }),
{
}

proof fn lemma_top_byte(acc: u32)
    by (bit_vector)
    ensures
        ((acc >> 24) as u8) == 128 * ((acc >> 31) & 1) + 64 * ((acc >> 30) & 1) + 32 * ((acc >> 29)
            & 1) + 16 * ((acc >> 28) & 1) + 8 * ((acc >> 27) & 1) + 4 * ((acc >> 26) & 1) + 2 * ((
        acc >> 25) & 1) + ((acc >> 24) & 1),
        acc >> 24 < 256,
        (acc >> 31) & 1 < 2,
        (acc >> 30) & 1 < 2,
        (acc >> 29) & 1 < 2,
        (acc >> 28) & 1 < 2,
        (acc >> 27) & 1 < 2,
        (acc >> 26) & 1 < 2,
        (acc >> 25) & 1 < 2,
        (acc >> 24) & 1 < 2,
{
}

proof fn lemma_stuff_push(s: Seq<u8>, b: u8)
    ensures
        stuff(s.push(b)) == stuff(s) + stuffed_byte(b),
{
    assert(s.push(b).drop_last() =~= s);
}

/// A bit is 0 or 1, and `or` with 0 keeps it.
proof fn lemma_or_zero(a: u32, b: u32)
    by (bit_vector)
    ensures
        (a & 1) | 0u32 == a & 1,
        0u32 | (b & 1) == b & 1,
        a & 1 < 2,
        b & 1 < 2,
{
}

impl<'a> BitW<'a> {
    /// The bytes that are complete.
    pub open spec fn done(&self) -> Seq<u8> {
        stuff(pack(self.bits@.take(self.bits@.len() - self.n)))
    }

    /// Buffer, position and accumulator stand for the bits that were put.
    pub open spec fn holds(&self) -> bool {
        &&& self.n <= 32
        &&& self.n <= self.bits@.len()
        &&& (self.bits@.len() - self.n) % 8 == 0
        &&& forall|j: int|
            0 <= j < 32 ==> #[trigger] word_bit(self.acc, j) == (j < self.n
                && self.bits@[self.bits@.len() - self.n + j])
        &&& self.stored(self.done())
    }

    /// The buffer is its first content with `bytes` laid over it from the start. The position
    /// counts all of them, as far as it can.
    pub open spec fn stored(&self, bytes: Seq<u8>) -> bool {
        &&& self.base@.len() == self.buf@.len()
        &&& self.buf@ == splice(self.base@, 0, bytes)
        &&& self.pos == if bytes.len() <= usize::MAX {
            bytes.len() as int
        } else {
            usize::MAX as int
        }
        &&& self.overflow == (bytes.len() > self.buf@.len())
    }

    /// Between calls fewer than eight bits wait in the accumulator.
    pub open spec fn wf(&self) -> bool {
        self.holds() && self.n < 8
    }

    /// A writer at the start of `buf`.
    pub fn new(buf: &'a mut [u8]) -> (w: BitW<'a>)
        ensures
            w.wf(),
            w.bits@ == Seq::<bool>::empty(),
            w.base@ == old(buf)@,
            final(w.buf)@ == final(buf)@,
    {
        let ghost base = buf@;
        let w = BitW {
            buf,
            pos: 0,
            acc: 0,
            n: 0,
            overflow: false,
            bits: Ghost(Seq::empty()),
            base: Ghost(base),
        };
        proof {
            assert(w.bits@.take(0) =~= Seq::<bool>::empty());
            assert(pack(w.bits@) =~= Seq::<u8>::empty());
            lemma_splice_empty(base, 0);
            assert forall|j: int| 0 <= j < 32 implies !#[trigger] word_bit(0u32, j) by {
                let k = (31 - j) as u32;
                assert((0u32 >> k) & 1u32 == 0u32) by (bit_vector);
            }
        }
        w
    }

    /// Store one byte, or note that there is no room for it. It counts either way.
    fn byte(&mut self, b: u8, Ghost(bytes): Ghost<Seq<u8>>)
        requires
            old(self).stored(bytes),
        ensures
            final(self).stored(bytes.push(b)),
            final(self).acc == old(self).acc,
            final(self).n == old(self).n,
            final(self).bits == old(self).bits,
            final(self).base == old(self).base,
            final(final(self).buf)@ == final(old(self).buf)@,
    {
        proof {
            assert(bytes.push(b) =~= bytes + seq![b]);
            lemma_splice_concat(self.base@, 0, bytes, seq![b]);
        }
        let p: usize = self.pos;
        if p < self.buf.len() {
            self.buf[p] = b;
        } else {
            self.overflow = true;
        }
        if p < usize::MAX {
            self.pos = p + 1;
        }
        assert(self.buf@ =~= splice(splice(self.base@, 0, bytes), bytes.len() as int, seq![b]));
    }

    /// Append the low `size` bits of `code`, most significant first. Every 0xFF byte that
    /// becomes complete is followed by a zero byte.
    pub fn put(&mut self, code: u32, size: u32)
        requires
            old(self).wf(),
            size < 32,
            old(self).n + size <= 32,
        ensures
            final(self).wf(),
            final(self).bits@ == old(self).bits@ + bits_of(code, size as nat),
            final(self).base == old(self).base,
            final(final(self).buf)@ == final(old(self).buf)@,
    {
        if size == 0 {
            assert(self.bits@ + bits_of(code, 0) =~= self.bits@);
            return;
        }
        let ghost before = *self;
        let ghost all = self.bits@ + bits_of(code, size as nat);
        proof {
            lemma_join(self.acc, code, self.n, size, 0);
        }
        let joined = self.acc | ((code & ((1u32 << size) - 1)) << (32 - self.n - size));
        proof {
            assert forall|j: int| 0 <= j < 32 implies #[trigger] word_bit(joined, j) == (j
                < self.n + size && all[all.len() - self.n - size + j]) by {
                lemma_join(self.acc, code, self.n, size, j as u32);
                lemma_or_zero(
                    self.acc >> ((31 - j) as u32),
                    code >> ((size - 1 - (j - self.n)) as u32),
                );
                assert(word_bit(self.acc, j) == (j < self.n && self.bits@[self.bits@.len() - self.n
                    + j]));
                if self.n <= j < self.n + size {
                    assert(all[self.bits@.len() + (j - self.n)] == bits_of(code, size as nat)[j
                        - self.n]);
                }
            }
            assert(all.take(all.len() - self.n - size) =~= self.bits@.take(
                self.bits@.len() - self.n,
            ));
        }
        self.acc = joined;
        self.n = self.n + size;
        self.bits = Ghost(all);
        while self.n >= 8
            invariant
                self.holds(),
                self.bits@ == all,
                self.base == before.base,
                final(self.buf)@ == final(before.buf)@,
            decreases self.n,
        {
            let ghost at = self.bits@.len() - self.n;
            let ghost bytes = pack(self.bits@.take(at));
            let ghost acc0 = self.acc;
            let ghost n0 = self.n;
            let b = (self.acc >> 24) as u8;
            proof {
                lemma_top_byte(self.acc);
                assert(word_bit(self.acc, 0) == self.bits@[at]);
                assert(word_bit(self.acc, 1) == self.bits@[at + 1]);
                assert(word_bit(self.acc, 2) == self.bits@[at + 2]);
                assert(word_bit(self.acc, 3) == self.bits@[at + 3]);
                assert(word_bit(self.acc, 4) == self.bits@[at + 4]);
                assert(word_bit(self.acc, 5) == self.bits@[at + 5]);
                assert(word_bit(self.acc, 6) == self.bits@[at + 6]);
                assert(word_bit(self.acc, 7) == self.bits@[at + 7]);
                assert(octet(self.bits@, at) == b);
                assert(pack(self.bits@.take(at + 8)) =~= bytes.push(b));
                lemma_stuff_push(bytes, b);
            }
            let ghost out = stuff(bytes);
            self.byte(b, Ghost(out));
            if b == 0xFF {
                self.byte(0, Ghost(out.push(b)));
                assert(out.push(b).push(0) =~= out + stuffed_byte(b));
            } else {
                assert(out.push(b) =~= out + stuffed_byte(b));
            }
            self.acc = self.acc << 8;
            self.n = self.n - 8;
            proof {
                assert forall|j: int| 0 <= j < 32 implies #[trigger] word_bit(self.acc, j) == (j
                    < self.n && self.bits@[self.bits@.len() - self.n + j]) by {
                    lemma_shift_out(acc0, j as u32);
                    if j < 24 {
                        assert(word_bit(acc0, j + 8) == (j + 8 < n0 && self.bits@[at + j + 8]));
                    }
                }
            }
        }
    }

    /// Pad with 1-bits to a byte boundary.
    pub fn flush(&mut self)
        requires
            old(self).wf(),
        ensures
            final(self).wf(),
            final(self).n == 0,
            final(self).bits@ == pad(old(self).bits@),
            final(self).stored(entropy_bytes(old(self).bits@)),
            final(self).base == old(self).base,
            final(final(self).buf)@ == final(old(self).buf)@,
    {
        let ghost before = self.bits@;
        if self.n > 0 {
            let pad = 8 - self.n;
            proof {
                assert(1u32 << pad >= 1 && forall|k: u32|
                    k < pad ==> #[trigger] ((((1u32 << pad) - 1) as u32) >> k) & 1u32 == 1u32)
                    by (bit_vector)
                    requires
                        0 < pad < 8,
                ;
                assert(bits_of(((1u32 << pad) - 1) as u32, pad as nat) =~= Seq::new(
                    pad as nat,
                    |i: int| true,
                ));
            }
            self.put((1u32 << pad) - 1, pad);
        } else {
            assert(pad(before) =~= before);
        }
        assert(self.bits@ == pad(before));
        assert(self.bits@.take(self.bits@.len() as int) =~= self.bits@);
    }
}

} // verus!
