//! The command frame, byte by byte.

use vstd::prelude::*;

use super::{END, START};

verus! {

/// The parameters of a command as byte strings.
pub open spec fn views(params: Seq<&[u8]>) -> Seq<Seq<u8>> {
    Seq::new(params.len(), |i: int| params[i]@)
}

/// The parameters in a frame: each its length in one byte, and its bytes.
pub open spec fn param_bytes(params: Seq<Seq<u8>>) -> Seq<u8>
    decreases params.len(),
{
    if params.len() == 0 {
        Seq::empty()
    } else {
        param_bytes(params.drop_last()) + seq![params.last().len() as u8] + params.last()
    }
}

/// How a frame begins: its start, the command, and the number of parameters.
pub open spec fn opening(cmd: u8, params: Seq<Seq<u8>>) -> Seq<u8> {
    seq![START, cmd % 128, params.len() as u8]
}

/// A frame without padding.
pub open spec fn bare_frame(cmd: u8, params: Seq<Seq<u8>>) -> Seq<u8> {
    opening(cmd, params) + param_bytes(params) + seq![END]
}

/// Bytes of padding that make `n` a multiple of four.
pub open spec fn padding(n: int) -> int {
    (4 - n % 4) % 4
}

/// `n` bytes of padding.
pub open spec fn pad(n: int) -> Seq<u8> {
    Seq::new(n as nat, |i: int| 0xFFu8)
}

/// A frame as it goes out.
pub open spec fn request_frame(cmd: u8, params: Seq<Seq<u8>>) -> Seq<u8> {
    let bare = bare_frame(cmd, params);
    bare + pad(padding(bare.len() as int))
}

/// Where the sender is in the frame.
enum Place {
    Start,
    Command,
    Count,
    /// The parameter, and how many of its bytes (its length among them) are out.
    Param(usize, usize),
    Padding,
}

/// A frame being sent.
pub struct Sender {
    place: Place,
    sent: u8,
    out: Ghost<Seq<u8>>,
}

/// The frame up to `j` bytes of the encoding of parameter `i`.
spec fn up_to(cmd: u8, params: Seq<Seq<u8>>, i: int, j: int) -> Seq<u8> {
    opening(cmd, params) + param_bytes(params.take(i)) + (if j == 0 {
        Seq::empty()
    } else {
        seq![params[i].len() as u8] + params[i].take(j - 1)
    })
}

impl Sender {
    /// What was sent so far.
    pub closed spec fn out(self) -> Seq<u8> {
        self.out@
    }

    /// What was sent is a beginning of the frame.
    pub closed spec fn wf(self, cmd: u8, params: Seq<Seq<u8>>) -> bool {
        let out = self.out@;
        let bare = bare_frame(cmd, params);
        &&& self.sent == out.len() % 4
        &&& match self.place {
            Place::Start => out == Seq::<u8>::empty(),
            Place::Command => out == seq![START],
            Place::Count => out == seq![START, cmd % 128],
            Place::Param(i, j) => {
                &&& i <= params.len()
                &&& i == params.len() ==> j == 0
                &&& i < params.len() ==> j <= params[i as int].len()
                &&& out == up_to(cmd, params, i as int, j as int)
            },
            Place::Padding => {
                &&& bare.len() <= out.len() <= bare.len() + padding(bare.len() as int)
                &&& out == bare + pad(out.len() - bare.len())
            },
        }
    }

    /// Nothing was sent yet.
    pub fn new() -> (s: Sender)
        ensures
            s.out() == Seq::<u8>::empty(),
            forall|cmd: u8, params: Seq<Seq<u8>>| s.wf(cmd, params),
    {
        Sender { place: Place::Start, sent: 0, out: Ghost(Seq::empty()) }
    }

    /// The next byte of the frame, or `None` if all of it was sent.
    #[verifier::rlimit(40)]
    pub fn next(&mut self, cmd: u8, params: &[&[u8]]) -> (b: Option<u8>)
        requires
            old(self).wf(cmd, views(params@)),
        ensures
            final(self).wf(cmd, views(params@)),
            old(self).out().is_prefix_of(request_frame(cmd, views(params@))),
            match b {
                Some(b) => {
                    &&& old(self).out().len() < request_frame(cmd, views(params@)).len()
                    &&& b == request_frame(cmd, views(params@))[old(self).out().len() as int]
                    &&& final(self).out() == old(self).out().push(b)
                },
                None => {
                    &&& old(self).out() == request_frame(cmd, views(params@))
                    &&& *final(self) == *old(self)
                },
            },
    {
        let ghost ps = views(params@);
        let ghost was = self.out@;
        let ghost frame = request_frame(cmd, ps);
        let ghost bare = bare_frame(cmd, ps);
        let b: u8 = match self.place {
            Place::Start => {
                self.place = Place::Command;
                proof {
                    assert(was.push(START) =~= seq![START]);
                    assert(frame[0] == START);
                }
                START
            },
            Place::Command => {
                self.place = Place::Count;
                proof {
                    assert(was.push(cmd % 128) =~= seq![START, cmd % 128]);
                    assert(frame[1] == cmd % 128);
                }
                cmd % 128
            },
            Place::Count => {
                let n: u8 = params.len() as u8;
                self.place = Place::Param(0, 0);
                proof {
                    assert(ps.take(0).len() == 0);
                    assert(was.push(n) =~= up_to(cmd, ps, 0, 0));
                    assert(frame[2] == n);
                }
                n
            },
            Place::Param(i, j) => {
                if i == params.len() {
                    self.place = Place::Padding;
                    proof {
                        assert(ps.take(i as int) =~= ps);
                        assert(was.push(END) =~= bare);
                        assert(bare + pad(0) =~= bare);
                        assert(frame[was.len() as int] == END);
                    }
                    END
                } else {
                    let p: &[u8] = params[i];
                    assert(ps[i as int] == p@);
                    let b: u8 = if j == 0 {
                        p.len() as u8
                    } else {
                        p[j - 1]
                    };
                    proof {
                        lemma_param_step(cmd, ps, i as int, j as int, b);
                    }
                    if j < p.len() {
                        self.place = Place::Param(i, j + 1);
                    } else {
                        self.place = Place::Param(i + 1, 0);
                    }
                    b
                }
            },
            Place::Padding => {
                if self.sent == 0 {
                    proof {
                        lemma_padding(bare.len() as int, was.len() - bare.len());
                        assert(was =~= frame);
                    }
                    return None;
                }
                proof {
                    lemma_padding(bare.len() as int, was.len() - bare.len());
                    assert(was.push(0xFF) =~= bare + pad(was.len() + 1 - bare.len()));
                }
                0xFF
            },
        };
        self.sent = (self.sent + 1) % 4;
        self.out = Ghost(was.push(b));
        assert(was =~= frame.take(was.len() as int));
        Some(b)
    }
}

proof fn lemma_padding(n: int, k: int)
    requires
        0 <= n,
        0 <= k <= padding(n),
    ensures
        (n + k) % 4 == 0 <==> k == padding(n),
{
}

/// The parameters up to some parameter begin the parameters.
pub proof fn lemma_param_bytes_prefix(params: Seq<Seq<u8>>, i: int)
    requires
        0 <= i <= params.len(),
    ensures
        param_bytes(params.take(i)).is_prefix_of(param_bytes(params)),
    decreases params.len() - i,
{
    if i == params.len() {
        assert(params.take(i) =~= params);
    } else {
        lemma_param_bytes_prefix(params, i + 1);
        assert(params.take(i + 1).drop_last() =~= params.take(i));
        let a = param_bytes(params.take(i));
        let b = param_bytes(params.take(i + 1));
        let c = param_bytes(params);
        assert(a =~= b.take(a.len() as int));
        assert(a =~= c.take(a.len() as int));
    }
}

/// One byte of a parameter: it is the next byte of the frame.
proof fn lemma_param_step(cmd: u8, params: Seq<Seq<u8>>, i: int, j: int, b: u8)
    requires
        0 <= i < params.len(),
        0 <= j <= params[i].len(),
        b == if j == 0 {
            params[i].len() as u8
        } else {
            params[i][j - 1]
        },
    ensures
        ({
            let was = up_to(cmd, params, i, j);
            let frame = request_frame(cmd, params);
            &&& was.push(b) == if j < params[i].len() {
                up_to(cmd, params, i, j + 1)
            } else {
                up_to(cmd, params, i + 1, 0)
            }
            &&& was.len() < frame.len()
            &&& frame[was.len() as int] == b
            &&& was.is_prefix_of(frame)
        }),
{
    let was = up_to(cmd, params, i, j);
    let head = opening(cmd, params);
    let a = param_bytes(params.take(i));
    let c = param_bytes(params.take(i + 1));
    let all = param_bytes(params);
    assert(params.take(i + 1).drop_last() =~= params.take(i));
    assert(params.take(i + 1).last() == params[i]);
    assert(c =~= a + seq![params[i].len() as u8] + params[i]);
    lemma_param_bytes_prefix(params, i + 1);
    if j < params[i].len() {
        assert(params[i].take(j + 1 - 1) =~= params[i].take(j));
        if j > 0 {
            assert(params[i].take(j) =~= params[i].take(j - 1).push(b));
        }
        assert(was.push(b) =~= up_to(cmd, params, i, j + 1));
    } else {
        if j > 0 {
            assert(params[i].take(j - 1).push(b) =~= params[i]);
        }
        assert(was.push(b) =~= up_to(cmd, params, i + 1, 0));
    }
    // Everything up to here lies in the encoding of the parameters up to the next.
    assert(forall|k: int| 0 <= k < c.len() ==> all[k] == c[k]);
    let frame = request_frame(cmd, params);
    assert(forall|k: int| 0 <= k < c.len() ==> frame[3 + k] == c[k]);
    assert(was =~= frame.take(was.len() as int));
}

/// A frame goes out as a multiple of four bytes, padded with at most three.
pub proof fn law_frame_padded(cmd: u8, params: Seq<Seq<u8>>)
    ensures
        request_frame(cmd, params).len() % 4 == 0,
        request_frame(cmd, params).len() - bare_frame(cmd, params).len() <= 3,
        bare_frame(cmd, params).is_prefix_of(request_frame(cmd, params)),
{
    let bare = bare_frame(cmd, params);
    lemma_padding(bare.len() as int, padding(bare.len() as int));
    assert(bare =~= request_frame(cmd, params).take(bare.len() as int));
}

/// Parameters go out one behind the other, each behind its length.
pub proof fn law_param_bytes(params: Seq<Seq<u8>>, p: Seq<u8>)
    requires
        p.len() < 256,
    ensures
        param_bytes(Seq::empty()) == Seq::<u8>::empty(),
        param_bytes(params.push(p)).len() == param_bytes(params).len() + 1 + p.len(),
        param_bytes(params.push(p)).take(param_bytes(params).len() as int) == param_bytes(params),
        param_bytes(params.push(p))[param_bytes(params).len() as int] == p.len(),
        param_bytes(params.push(p)).skip(param_bytes(params).len() as int + 1) == p,
{
    assert(params.push(p).drop_last() =~= params);
    let n = param_bytes(params).len() as int;
    assert(param_bytes(params.push(p)).take(n) =~= param_bytes(params));
    assert(param_bytes(params.push(p)).skip(n + 1) =~= p);
}

/// A frame is `E0`, the command without its high bit, the number of parameters, the parameters, `EE`,
/// and bytes `FF` up to a multiple of four.
pub proof fn law_request_frame(cmd: u8, params: Seq<Seq<u8>>, i: int)
    requires
        params.len() < 256,
    ensures
        ({
            let (frame, n) = (request_frame(cmd, params), param_bytes(params).len() as int);
            &&& frame[0] == 0xE0
            &&& frame[1] == cmd & 0x7F
            &&& frame[2] == params.len()
            &&& frame.subrange(3, 3 + n) == param_bytes(params)
            &&& frame[3 + n] == 0xEE
            &&& frame.len() % 4 == 0
            &&& 4 + n <= frame.len() < 8 + n
            &&& 4 + n <= i < frame.len() ==> frame[i] == 0xFF
        }),
{
    let (frame, n) = (request_frame(cmd, params), param_bytes(params).len() as int);
    assert(cmd % 128 == cmd & 0x7F) by (bit_vector);
    lemma_padding(4 + n, padding(4 + n));
    assert(frame.subrange(3, 3 + n) =~= param_bytes(params));
}

/// Every parameter goes out as it is.
pub proof fn law_views(params: Seq<&[u8]>, i: int)
    requires
        0 <= i < params.len(),
    ensures
        views(params).len() == params.len(),
        views(params)[i] == params[i]@,
{
}

} // verus!
