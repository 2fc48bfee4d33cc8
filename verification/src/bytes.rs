//! Byte strings laid over a buffer.

use vstd::prelude::*;

verus! {

/// `s` with `t` laid over it from index `p` on. What of `t` lies beyond the end of `s` is dropped.
pub open spec fn splice(s: Seq<u8>, p: int, t: Seq<u8>) -> Seq<u8> {
    Seq::new(
        s.len(),
        |i: int|
            if p <= i < p + t.len() {
                t[i - p]
            } else {
                s[i]
            },
    )
}

/// Laying `a` and then, right behind it, `b` is laying `a + b`.
pub proof fn lemma_splice_concat(s: Seq<u8>, p: int, a: Seq<u8>, b: Seq<u8>)
    ensures
        splice(splice(s, p, a), p + a.len(), b) == splice(s, p, a + b),
{
    assert(splice(splice(s, p, a), p + a.len(), b) =~= splice(s, p, a + b));
}

/// Laying one string right behind another is laying both.
pub broadcast proof fn lemma_splice_chain(s: Seq<u8>, p: int, a: Seq<u8>, q: int, b: Seq<u8>)
    requires
        q == p + a.len(),
    ensures
        #[trigger] splice(splice(s, p, a), q, b) == splice(s, p, a + b),
{
    lemma_splice_concat(s, p, a, b);
}

/// Laying an empty string changes nothing.
pub proof fn lemma_splice_empty(s: Seq<u8>, p: int)
    ensures
        splice(s, p, Seq::<u8>::empty()) == s,
{
    assert(splice(s, p, Seq::<u8>::empty()) =~= s);
}

/// A string laid over a buffer stands there byte by byte, as far as there is room, and the rest of
/// the buffer is as it was.
pub proof fn law_splice(s: Seq<u8>, p: int, t: Seq<u8>, i: int)
    requires
        0 <= i < s.len(),
    ensures
        splice(s, p, t).len() == s.len(),
        p <= i < p + t.len() ==> splice(s, p, t)[i] == t[i - p],
        i < p || p + t.len() <= i ==> splice(s, p, t)[i] == s[i],
{
}

/// A word is the sum of its bytes.
pub proof fn lemma_word_bytes(word: u32)
    ensures
        word == word / 0x100_0000 * 0x100_0000 + word / 0x1_0000 % 256 * 0x1_0000 + word / 256 % 256
            * 256 + word % 256,
        word / 0x100_0000 < 256,
{
    let (p, q) = (word as int / 256, word as int / 0x1_0000);
    assert(word == p * 256 + word % 256);
    assert(q == p / 256 && p == q * 256 + p % 256);
    assert(word as int / 0x100_0000 == q / 256 && q == q / 256 * 256 + q % 256);
}

} // verus!
