//! JPEG files that the sensor's own encoder delivers.
//!
//! The capture packs the byte stream big-endian within each 32-bit word. Once the bytes of every
//! word are swapped, the buffer read byte by byte is the stream, with the file somewhere in it.

use vstd::prelude::*;

use crate::bytes::{lemma_word_bytes, splice};
use crate::http::{head, lemma_head_len, write_head, Content};

verus! {

/// Byte `i` of a buffer of words in memory, least significant byte of a word first.
pub open spec fn byte_at(words: Seq<u32>, i: int) -> u8 {
    let word = words[i / 4];
    if i % 4 == 0 {
        (word % 256) as u8
    } else if i % 4 == 1 {
        (word / 256 % 256) as u8
    } else if i % 4 == 2 {
        (word / 0x1_0000 % 256) as u8
    } else {
        (word / 0x100_0000) as u8
    }
}

/// A buffer of words, byte by byte.
pub open spec fn stream(words: Seq<u32>) -> Seq<u8> {
    Seq::new(4 * words.len(), |i: int| byte_at(words, i))
}

/// A word with its bytes in reverse.
pub open spec fn swapped(word: u32) -> u32 {
    (word % 256 * 0x100_0000 + word / 256 % 256 * 0x1_0000 + word / 0x1_0000 % 256 * 256 + word
        / 0x100_0000) as u32
}

/// Every word with its bytes in reverse.
pub open spec fn swapped_all(words: Seq<u32>) -> Seq<u32> {
    Seq::new(words.len(), |j: int| swapped(words[j]))
}

/// A JPEG marker stands at index `i`.
pub open spec fn marker_at(s: Seq<u8>, i: int, code: u8) -> bool {
    &&& 0 <= i
    &&& i + 1 < s.len()
    &&& s[i] == 0xFF
    &&& s[i + 1] == code
}

/// The first marker of its kind from index `from` on stands at index `i`.
pub open spec fn first_marker(s: Seq<u8>, from: int, code: u8, i: int) -> bool {
    &&& from <= i
    &&& marker_at(s, i, code)
    &&& forall|j: int| from <= j < i ==> !marker_at(s, j, code)
}

/// A JPEG file of `len` bytes begins at index `start`: the first start marker, and the first end
/// marker behind it.
pub open spec fn is_jpeg(s: Seq<u8>, start: int, len: int) -> bool {
    &&& first_marker(s, 0, 0xD8, start)
    &&& first_marker(s, start + 2, 0xD9, start + len - 2)
}

/// Byte `i` of a buffer of words.
fn byte(words: &[u32], i: usize) -> (b: u8)
    requires
        i < 4 * words@.len(),
    ensures
        b == byte_at(words@, i as int),
{
    let word: u32 = words[i / 4];
    if i % 4 == 0 {
        (word % 256) as u8
    } else if i % 4 == 1 {
        (word / 256 % 256) as u8
    } else if i % 4 == 2 {
        (word / 0x1_0000 % 256) as u8
    } else {
        (word / 0x100_0000) as u8
    }
}

/// Reverse the bytes of every word.
pub fn swap_words(words: &mut [u32])
    ensures
        final(words)@ == swapped_all(old(words)@),
{
    let ghost before = words@;
    let n: usize = words.len();
    let mut j: usize = 0;
    while j < n
        invariant
            j <= n == before.len(),
            words@.len() == n,
            forall|k: int| 0 <= k < j ==> words@[k] == swapped(before[k]),
            forall|k: int| j <= k < n ==> words@[k] == before[k],
        decreases n - j,
    {
        let x: u32 = words[j];
        words[j] = x % 256 * 0x100_0000 + x / 256 % 256 * 0x1_0000 + x / 0x1_0000 % 256 * 256 + x
            / 0x100_0000;
        j = j + 1;
    }
    assert(words@ =~= swapped_all(before));
}

/// The first marker of its kind from index `from` on.
fn find_marker(words: &[u32], from: usize, code: u8) -> (at: Option<usize>)
    requires
        4 * words@.len() <= usize::MAX,
        from <= 4 * words@.len(),
    ensures
        match at {
            Some(i) => first_marker(stream(words@), from as int, code, i as int),
            None => forall|j: int| from <= j ==> !marker_at(stream(words@), j, code),
        },
{
    let nb: usize = words.len() * 4;
    let mut i: usize = from;
    while i < nb && nb - i > 1
        invariant
            from <= i <= nb == 4 * words@.len(),
            forall|j: int| from <= j < i ==> !marker_at(stream(words@), j, code),
        decreases nb - i,
    {
        if byte(words, i) == 0xFF && byte(words, i + 1) == code {
            return Some(i);
        }
        i = i + 1;
    }
    None
}

/// The result of a search for a JPEG file: where it begins, and its length; `None` if there is none.
pub open spec fn is_search(s: Seq<u8>, found: Option<(usize, usize)>) -> bool {
    match found {
        Some((start, len)) => is_jpeg(s, start as int, len as int),
        None => forall|start: int, len: int| !is_jpeg(s, start, len),
    }
}

/// The JPEG file in a buffer: where it begins, and its length.
pub fn find_jpeg(words: &[u32]) -> (found: Option<(usize, usize)>)
    requires
        4 * words@.len() <= usize::MAX,
    ensures
        is_search(stream(words@), found),
{
    match find_marker(words, 0, 0xD8) {
        None => None,
        Some(soi) => match find_marker(words, soi + 2, 0xD9) {
            None => {
                assert forall|start: int, len: int| !is_jpeg(stream(words@), start, len) by {
                    if is_jpeg(stream(words@), start, len) {
                        assert(marker_at(stream(words@), soi as int, 0xD8));
                        assert(marker_at(stream(words@), start, 0xD8));
                        assert(start == soi);
                    }
                }
                None
            },
            Some(eoi) => Some((soi, eoi + 2 - soi)),
        },
    }
}

/// Where the parts of a response with a captured JPEG file stand.
#[derive(Clone, Copy, Debug, PartialEq, Eq, Structural)]
pub struct Served {
    /// Length of the head of the response.
    pub head: usize,
    /// Index of the first byte of the file.
    pub start: usize,
    /// Length of the file.
    pub len: usize,
}

/// Make a captured buffer a plain byte stream, find the JPEG file in it, and write the head of the
/// response to the front of `hdr`. `None` if there is no file.
pub fn serve_jpeg(words: &mut [u32], hdr: &mut [u8]) -> (served: Option<Served>)
    requires
        4 * old(words)@.len() <= usize::MAX,
        92 <= old(hdr)@.len(),
    ensures
        final(words)@ == swapped_all(old(words)@),
        match served {
            Some(s) => {
                &&& is_jpeg(stream(final(words)@), s.start as int, s.len as int)
                &&& s.head == head(Content::Jpeg, s.len as u32).len()
                &&& final(hdr)@ == splice(old(hdr)@, 0, head(Content::Jpeg, s.len as u32))
            },
            None => {
                &&& forall|start: int, len: int| !is_jpeg(stream(final(words)@), start, len)
                &&& final(hdr)@ == old(hdr)@
            },
        },
{
    swap_words(words);
    match find_jpeg(words) {
        None => None,
        Some((start, len)) => {
            proof {
                lemma_head_len(Content::Jpeg, len as u32);
            }
            let n: usize = write_head(hdr, Content::Jpeg, len as u32);
            Some(Served { head: n, start, len })
        },
    }
}

/// What is to be done next to send a captured file.
#[derive(Clone, Copy, Debug, PartialEq, Eq, Structural)]
pub enum Step {
    /// Send the head of the response: the first `len` bytes of its buffer.
    Head { len: usize },
    /// Send the file: `len` bytes of the stream, from index `start` on.
    File { start: usize, len: usize },
    /// Nothing is left: whether there was a file, and its length.
    Done { found: bool, len: usize },
}

/// The first step for what was found.
pub open spec fn first_step(served: Option<Served>) -> Step {
    match served {
        Some(s) => Step::Head { len: s.head },
        None => Step::Done { found: false, len: 0 },
    }
}

/// The step behind another one, where `ok` says whether all that was sent was accepted.
pub open spec fn step_after(s: Served, step: Step, ok: bool) -> Step {
    match step {
        Step::Head { .. } => if ok {
            Step::File { start: s.start, len: s.len }
        } else {
            Step::Done { found: true, len: s.len }
        },
        _ => Step::Done { found: true, len: s.len },
    }
}

/// A captured file being sent: its head first, and the file only if the head was accepted.
pub struct Delivery {
    served: Option<Served>,
    step: Step,
}

impl Delivery {
    /// What was found.
    pub closed spec fn served(self) -> Option<Served> {
        self.served
    }

    /// What is being done.
    pub closed spec fn step(self) -> Step {
        self.step
    }

    /// What is being done belongs to what was found.
    pub open spec fn wf(self) -> bool {
        match self.served() {
            Some(s) => {
                ||| self.step() == first_step(Some(s))
                ||| self.step() == step_after(s, first_step(Some(s)), true)
                ||| self.step() == (Step::Done { found: true, len: s.len })
            },
            None => self.step() == first_step(None),
        }
    }

    /// Send what `serve_jpeg` found.
    pub fn new(served: Option<Served>) -> (d: Delivery)
        ensures
            d.wf(),
            d.served() == served,
            d.step() == first_step(served),
    {
        let step = match served {
            Some(s) => Step::Head { len: s.head },
            None => Step::Done { found: false, len: 0 },
        };
        Delivery { served, step }
    }

    /// What is to be done first.
    pub fn first(&self) -> (step: Step)
        ensures
            step == self.step(),
    {
        self.step
    }

    /// What is to be done next; `ok` says whether what was just sent was accepted.
    pub fn next(&mut self, ok: bool) -> (step: Step)
        requires
            old(self).wf(),
            !(old(self).step() is Done),
        ensures
            final(self).wf(),
            final(self).served() == old(self).served(),
            final(self).step() == step,
            old(self).served() matches Some(s) && step == step_after(s, old(self).step(), ok),
    {
        self.step = match self.served {
            Some(s) => match self.step {
                Step::Head { .. } => if ok {
                    Step::File { start: s.start, len: s.len }
                } else {
                    Step::Done { found: true, len: s.len }
                },
                _ => Step::Done { found: true, len: s.len },
            },
            None => Step::Done { found: false, len: 0 },
        };
        self.step
    }
}

/// A file is sent exactly when its head was accepted, and the outcome says that there was a file,
/// and how long it is, whatever was accepted. Without a file nothing is sent.
pub proof fn law_delivery(s: Served, head_ok: bool, file_ok: bool)
    ensures
        first_step(None) == (Step::Done { found: false, len: 0 }),
        first_step(Some(s)) == (Step::Head { len: s.head }),
        ({
            let second = step_after(s, first_step(Some(s)), head_ok);
            let last = step_after(s, second, file_ok);
            &&& second == (Step::File { start: s.start, len: s.len }) <==> head_ok
            &&& !head_ok ==> second == last
            &&& last == (Step::Done { found: true, len: s.len })
        }),
{
}

/// Copy `n` bytes of a buffer of words, from byte `from` on, to the front of `out`.
pub fn copy_bytes(words: &[u32], from: usize, n: usize, out: &mut [u8])
    requires
        from + n <= 4 * words@.len(),
        from + n <= usize::MAX,
        n <= old(out)@.len(),
    ensures
        final(out)@ == splice(old(out)@, 0, stream(words@).subrange(from as int, from + n)),
{
    let ghost base = out@;
    let mut k: usize = 0;
    while k < n
        invariant
            k <= n <= base.len(),
            from + n <= 4 * words@.len(),
            from + n <= usize::MAX,
            out@ == splice(base, 0, stream(words@).subrange(from as int, from + k)),
        decreases n - k,
    {
        out[k] = byte(words, from + k);
        k = k + 1;
        assert(out@ =~= splice(base, 0, stream(words@).subrange(from as int, from + k)));
    }
}

/// Swapping twice changes nothing.
pub proof fn law_swap_involutive(words: Seq<u32>)
    ensures
        swapped_all(swapped_all(words)) == words,
{
    assert forall|j: int| 0 <= j < words.len() implies swapped(swapped(words[j])) == words[j] by {
        lemma_swapped_twice(words[j]);
    }
    assert(swapped_all(swapped_all(words)) =~= words);
}

proof fn lemma_swapped_twice(word: u32)
    ensures
        swapped(swapped(word)) == word,
{
    let back = swapped(word);
    lemma_swapped(word);
    lemma_swapped(back);
    lemma_word_bytes(word);
    lemma_word_bytes(swapped(back));
}

/// The bytes of a number, from what they add up to.
proof fn lemma_bytes(v: int, a: int, b: int, c: int, d: int)
    requires
        0 <= a < 256,
        0 <= b < 256,
        0 <= c < 256,
        0 <= d < 256,
        v == a * 0x100_0000 + b * 0x1_0000 + c * 256 + d,
    ensures
        v % 256 == d,
        v / 256 % 256 == c,
        v / 0x1_0000 % 256 == b,
        v / 0x100_0000 == a,
        0 <= v <= u32::MAX,
{
    assert(v / 256 == a * 0x1_0000 + b * 256 + c);
    assert(v / 0x1_0000 == a * 256 + b);
    assert(v / 0x100_0000 == a);
}

proof fn lemma_swapped(word: u32)
    ensures
        swapped(word) % 256 == word / 0x100_0000,
        swapped(word) / 256 % 256 == word / 0x1_0000 % 256,
        swapped(word) / 0x1_0000 % 256 == word / 256 % 256,
        swapped(word) / 0x100_0000 == word % 256,
{
    let (a, b, c, d) = (
        word as int % 256,
        word as int / 256 % 256,
        word as int / 0x1_0000 % 256,
        word as int / 0x100_0000,
    );
    lemma_bytes(a * 0x100_0000 + b * 0x1_0000 + c * 256 + d, a, b, c, d);
}

/// The stream of a swapped buffer has the most significant byte of each word first.
pub proof fn law_swap_makes_contiguous(words: Seq<u32>, i: int)
    requires
        0 <= i < 4 * words.len(),
    ensures
        stream(swapped_all(words))[i] == byte_at(words, i - i % 4 + (3 - i % 4)),
{
    lemma_swapped(words[i / 4]);
}

/// A buffer holds at most one JPEG file in this sense.
pub proof fn law_jpeg_unique(s: Seq<u8>, start: int, len: int, start2: int, len2: int)
    requires
        is_jpeg(s, start, len),
        is_jpeg(s, start2, len2),
    ensures
        start == start2,
        len == len2,
{
    assert(marker_at(s, start, 0xD8) && marker_at(s, start2, 0xD8));
    assert(start == start2);
    assert(marker_at(s, start + len - 2, 0xD9) && marker_at(s, start2 + len2 - 2, 0xD9));
}

/// The file begins with the start marker, ends with the end marker, and lies within the buffer.
pub proof fn law_jpeg_framed(s: Seq<u8>, start: int, len: int)
    requires
        is_jpeg(s, start, len),
    ensures
        0 <= start,
        4 <= len,
        start + len <= s.len(),
        s.subrange(start, start + len).take(2) == seq![0xFFu8, 0xD8],
        s.subrange(start, start + len).skip(len - 2) == seq![0xFFu8, 0xD9],
{
    let file = s.subrange(start, start + len);
    assert(file.take(2) =~= seq![0xFFu8, 0xD8]);
    assert(file.skip(len - 2) =~= seq![0xFFu8, 0xD9]);
}

/// A buffer read byte by byte has four bytes for each word, the least significant first.
pub proof fn law_stream(words: Seq<u32>, j: int)
    requires
        0 <= j < words.len(),
    ensures
        stream(words).len() == 4 * words.len(),
        words[j] == stream(words)[4 * j] + 256 * stream(words)[4 * j + 1] + 0x1_0000 * stream(words)[4
            * j + 2] + 0x100_0000 * stream(words)[4 * j + 3],
{
    assert((4 * j) / 4 == j && (4 * j) % 4 == 0);
    assert((4 * j + 1) / 4 == j && (4 * j + 1) % 4 == 1);
    assert((4 * j + 2) / 4 == j && (4 * j + 2) % 4 == 2);
    assert((4 * j + 3) / 4 == j && (4 * j + 3) % 4 == 3);
    lemma_word_bytes(words[j]);
    let s = stream(words);
    assert(s[4 * j] == words[j] % 256);
    assert(s[4 * j + 1] == words[j] / 256 % 256);
    assert(s[4 * j + 2] == words[j] / 0x1_0000 % 256);
    assert(s[4 * j + 3] == words[j] / 0x100_0000);
}

/// Swapping reverses the four bytes of every word of a buffer, and keeps its length.
pub proof fn law_swap_reverses(words: Seq<u32>, j: int, k: int)
    requires
        0 <= j < words.len(),
        0 <= k < 4,
    ensures
        swapped_all(words).len() == words.len(),
        stream(swapped_all(words))[4 * j + k] == stream(words)[4 * j + 3 - k],
{
    let i = 4 * j + k;
    assert(i / 4 == j && i % 4 == k);
    assert((4 * j + 3 - k) / 4 == j && (4 * j + 3 - k) % 4 == 3 - k);
    law_swap_makes_contiguous(words, i);
}

/// A file begins with the first `FF D8` of a buffer and ends with the first `FF D9` from two bytes
/// further on, wherever they stand.
pub proof fn law_jpeg_found(s: Seq<u8>, start: int, len: int)
    requires
        0 <= start,
        4 <= len,
        start + len <= s.len(),
        s[start] == 0xFF && s[start + 1] == 0xD8,
        s[start + len - 2] == 0xFF && s[start + len - 1] == 0xD9,
        forall|j: int| 0 <= j < start ==> !(#[trigger] s[j] == 0xFF && s[j + 1] == 0xD8),
        forall|j: int|
            start + 2 <= j < start + len - 2 ==> !(#[trigger] s[j] == 0xFF && s[j + 1] == 0xD9),
    ensures
        is_jpeg(s, start, len),
{
    assert forall|j: int| 0 <= j < start implies !marker_at(s, j, 0xD8) by {
        assert(!(s[j] == 0xFF && s[j + 1] == 0xD8));
    }
    assert forall|j: int| start + 2 <= j < start + len - 2 implies !marker_at(s, j, 0xD9) by {
        assert(!(s[j] == 0xFF && s[j + 1] == 0xD9));
    }
}

/// What `find_jpeg` returns: a file begins with the first `FF D8` of the buffer, ends with the first
/// `FF D9` behind it, and is found wherever it stands.
pub proof fn law_find_jpeg(words: &[u32], found: Option<(usize, usize)>, start: int, len: int)
    requires
        call_ensures(find_jpeg, (words,), found),
        is_jpeg(stream(words@), start, len),
    ensures
        found == Some((start as usize, len as usize)),
        0 <= start,
        start + len <= 4 * words@.len(),
{
    law_jpeg_framed(stream(words@), start, len);
    assert(is_search(stream(words@), found));
    match found {
        Some((a, n)) => {
            law_jpeg_unique(stream(words@), start, len, a as int, n as int);
        },
        None => {
            assert(!is_jpeg(stream(words@), start, len));
        },
    }
}

/// What `serve_jpeg` does: every word has its bytes reversed, and a file that is there then is served
/// whole, behind a head that names its length.
pub proof fn law_serve_jpeg(
    words: &mut [u32],
    hdr: &mut [u8],
    served: Option<Served>,
    start: int,
    len: int,
)
    requires
        call_ensures(serve_jpeg, (words, hdr), served),
        is_jpeg(stream(final(words)@), start, len),
        92 <= old(hdr)@.len(),
        len <= u32::MAX,
    ensures
        final(words)@ == swapped_all(old(words)@),
        served matches Some(s) && s.start == start && s.len == len && final(hdr)@.take(s.head as int)
            == head(Content::Jpeg, len as u32),
{
    match served {
        Some(s) => {
            law_jpeg_unique(stream(final(words)@), start, len, s.start as int, s.len as int);
            lemma_head_len(Content::Jpeg, len as u32);
            assert(final(hdr)@.take(s.head as int) =~= head(Content::Jpeg, len as u32));
        },
        None => {},
    }
}

/// What `copy_bytes` writes: the bytes of the buffer from the one asked for on.
pub proof fn law_copy_bytes(words: &[u32], from: usize, n: usize, out: &mut [u8])
    requires
        from + n <= 4 * words@.len(),
        n <= old(out)@.len(),
        call_ensures(copy_bytes, (words, from, n, out), ()),
    ensures
        final(out)@.take(n as int) == stream(words@).subrange(from as int, from + n),
        final(out)@.skip(n as int) == old(out)@.skip(n as int),
{
    assert(final(out)@.take(n as int) =~= stream(words@).subrange(from as int, from + n));
    assert(final(out)@.skip(n as int) =~= old(out)@.skip(n as int));
}

} // verus!
