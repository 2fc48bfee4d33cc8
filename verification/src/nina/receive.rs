//! The reply frame, byte by byte.

use vstd::prelude::*;

use super::send::{lemma_param_bytes_prefix, param_bytes};
use super::{END, REPLY_FLAG, START};
use crate::bytes::splice;

verus! {

/// Bytes among which the start of a reply must come.
pub const TRIES: usize = 300;

/// The first start of a frame stands at index `i`.
pub open spec fn first_start(log: Seq<u8>, i: int) -> bool {
    &&& 0 <= i < log.len()
    &&& log[i] == START
    &&& forall|j: int| 0 <= j < i ==> log[j] != START
}

/// No start of a frame was received.
pub open spec fn no_start(log: Seq<u8>) -> bool {
    forall|j: int| 0 <= j < log.len() ==> log[j] != START
}

/// Index of the length of parameter `k`, where that of the first parameter stands at index `at`.
pub open spec fn param_pos(log: Seq<u8>, at: int, k: int) -> int
    decreases k,
{
    if k <= 0 {
        at
    } else {
        param_pos(log, at, k - 1) + 1 + log[param_pos(log, at, k - 1)]
    }
}

/// The bytes of the first `k` parameters, one parameter behind the other.
pub open spec fn data(log: Seq<u8>, at: int, k: int) -> Seq<u8>
    decreases k,
{
    if k <= 0 {
        Seq::empty()
    } else {
        data(log, at, k - 1) + log.subrange(
            param_pos(log, at, k - 1) + 1,
            param_pos(log, at, k),
        )
    }
}

/// What was received ends with the end byte of the frame that starts at index `i`.
pub open spec fn finished_at(log: Seq<u8>, i: int) -> bool {
    &&& first_start(log, i)
    &&& i < TRIES
    &&& i + 3 <= log.len()
    &&& log.len() == param_pos(log, i + 3, log[i + 2] as int) + 1
}

/// Nothing more is to be received: the frame is over, or has not started in time.
pub open spec fn finished(log: Seq<u8>) -> bool {
    (no_start(log) && log.len() >= TRIES) || exists|i: int| finished_at(log, i)
}

/// What the frame that starts at index `i` gives: the number of its parameters, and whether it is a
/// reply to the command and ends as a frame does.
pub open spec fn verdict(log: Seq<u8>, i: int, cmd: u8) -> (usize, bool) {
    (log[i + 2] as usize, log[i + 1] == cmd | REPLY_FLAG && log.last() == END)
}

/// The lengths of the parameters, as far as there is room for them.
pub open spec fn lengths(log: Seq<u8>, at: int, k: int, lens: Seq<usize>) -> Seq<usize> {
    Seq::new(
        lens.len(),
        |j: int|
            if j < k {
                log[param_pos(log, at, j)] as usize
            } else {
                lens[j]
            },
    )
}

/// Where the receiver is in the frame.
enum Place {
    Sync,
    Command,
    Count,
    /// The length of this parameter comes next; or, behind the last parameter, the end.
    Length(usize),
    /// So many bytes of this parameter are still to come.
    Data(usize, usize),
}

/// A frame being received.
pub struct Receiver {
    place: Place,
    tries: usize,
    rcmd: u8,
    count: usize,
    off: usize,
    log: Ghost<Seq<u8>>,
    start: Ghost<int>,
    resp: Ghost<Seq<u8>>,
    lens: Ghost<Seq<usize>>,
}

impl Receiver {
    /// What was received so far.
    pub closed spec fn log(self) -> Seq<u8> {
        self.log@
    }

    /// What the response buffer held at first.
    pub closed spec fn resp(self) -> Seq<u8> {
        self.resp@
    }

    /// What the buffer for the lengths held at first.
    pub closed spec fn lens(self) -> Seq<usize> {
        self.lens@
    }

    /// The receiver stands where what was received says, and the buffers hold what came.
    pub closed spec fn wf(self, resp: Seq<u8>, lens: Seq<usize>) -> bool {
        let log = self.log@;
        let i = self.start@;
        let at = i + 3;
        &&& match self.place {
            Place::Sync => {
                &&& no_start(log)
                &&& self.tries == log.len() < TRIES
                &&& self.off == 0
                &&& resp == self.resp@
                &&& lens == self.lens@
            },
            Place::Command => {
                &&& first_start(log, i)
                &&& i < TRIES
                &&& log.len() == i + 1
                &&& self.off == 0
                &&& resp == self.resp@
                &&& lens == self.lens@
            },
            Place::Count => {
                &&& first_start(log, i)
                &&& i < TRIES
                &&& log.len() == i + 2
                &&& self.rcmd == log[i + 1]
                &&& self.off == 0
                &&& resp == self.resp@
                &&& lens == self.lens@
            },
            Place::Length(k) => {
                &&& first_start(log, i)
                &&& i < TRIES
                &&& log.len() >= at
                &&& self.rcmd == log[i + 1]
                &&& self.count == log[i + 2]
                &&& k <= self.count
                &&& log.len() == param_pos(log, at, k as int)
                &&& resp == splice(self.resp@, 0, data(log, at, k as int))
                &&& lens == lengths(log, at, k as int, self.lens@)
                &&& self.off == if data(log, at, k as int).len() <= resp.len() {
                    data(log, at, k as int).len()
                } else {
                    resp.len()
                }
            },
            Place::Data(k, rest) => {
                let pos = param_pos(log, at, k as int);
                let so_far = data(log, at, k as int) + log.subrange(pos + 1, log.len() as int);
                &&& first_start(log, i)
                &&& i < TRIES
                &&& log.len() >= at
                &&& self.rcmd == log[i + 1]
                &&& self.count == log[i + 2]
                &&& k < self.count
                &&& at <= pos < log.len()
                &&& 0 < rest
                &&& log.len() + rest == pos + 1 + log[pos]
                &&& resp == splice(self.resp@, 0, so_far)
                &&& lens == lengths(log, at, k + 1, self.lens@)
                &&& self.off == if so_far.len() <= resp.len() {
                    so_far.len()
                } else {
                    resp.len()
                }
            },
        }
    }

    /// Nothing was received yet.
    pub fn new(resp: &[u8], lens: &[usize]) -> (r: Receiver)
        ensures
            r.wf(resp@, lens@),
            r.log() == Seq::<u8>::empty(),
            r.resp() == resp@,
            r.lens() == lens@,
    {
        Receiver {
            place: Place::Sync,
            tries: 0,
            rcmd: 0,
            count: 0,
            off: 0,
            log: Ghost(Seq::empty()),
            start: Ghost(0),
            resp: Ghost(resp@),
            lens: Ghost(lens@),
        }
    }
}

/// Positions grow by at least one with each parameter.
pub proof fn lemma_pos_grows(log: Seq<u8>, at: int, k: int, n: int)
    requires
        0 <= k <= n,
    ensures
        param_pos(log, at, n) >= param_pos(log, at, k) + (n - k),
        param_pos(log, at, k) >= at,
    decreases n,
{
    if k < n {
        lemma_pos_grows(log, at, k, n - 1);
    } else if k > 0 {
        lemma_pos_grows(log, at, k - 1, k - 1);
    }
}

/// Bytes that come later do not move a parameter, nor change its bytes.
proof fn lemma_pos_stable(log: Seq<u8>, b: u8, at: int, k: int)
    requires
        0 <= at,
        0 <= k,
        param_pos(log, at, k) <= log.len(),
    ensures
        param_pos(log.push(b), at, k) == param_pos(log, at, k),
        data(log.push(b), at, k) == data(log, at, k),
    decreases k,
{
    if k > 0 {
        lemma_pos_grows(log, at, k - 1, k);
        lemma_pos_stable(log, b, at, k - 1);
        let from = param_pos(log, at, k - 1) + 1;
        let to = param_pos(log, at, k);
        assert(log.push(b).subrange(from, to) =~= log.subrange(from, to));
    }
}

proof fn lemma_lengths_stable(log: Seq<u8>, b: u8, at: int, k: int, lens: Seq<usize>)
    requires
        0 <= at,
        0 <= k,
        k > 0 ==> param_pos(log, at, k - 1) < log.len(),
    ensures
        lengths(log.push(b), at, k, lens) == lengths(log, at, k, lens),
{
    assert forall|j: int| 0 <= j < lens.len() implies #[trigger] lengths(
        log.push(b),
        at,
        k,
        lens,
    )[j] == lengths(log, at, k, lens)[j] by {
        if j < k {
            lemma_pos_grows(log, at, j, k - 1);
            lemma_pos_stable(log, b, at, j);
        }
    }
    assert(lengths(log.push(b), at, k, lens) =~= lengths(log, at, k, lens));
}

proof fn lemma_first_start_push(log: Seq<u8>, b: u8, i: int)
    requires
        first_start(log, i),
    ensures
        first_start(log.push(b), i),
        forall|j: int| first_start(log.push(b), j) ==> j == i,
        !no_start(log.push(b)),
{
    assert(log.push(b)[i] == START);
}

/// What taking a byte means.
#[derive(Clone, Copy, Debug, PartialEq, Eq, Structural)]
pub enum Took {
    /// The frame goes on.
    More,
    /// The frame is over: the number of parameters, and whether it is valid.
    Done(usize, bool),
}

/// What taking a byte does to a receiver and its buffers, and what it means. `resp` and `lens` are
/// what the buffers hold afterwards.
pub open spec fn takes(
    before: Receiver,
    cmd: u8,
    b: u8,
    after: Receiver,
    resp: Seq<u8>,
    lens: Seq<usize>,
    took: Took,
) -> bool {
    let log = before.log().push(b);
    &&& after.log() == log
    &&& after.resp() == before.resp()
    &&& after.lens() == before.lens()
    &&& took == Took::More <==> !finished(log)
    &&& took == Took::More ==> after.wf(resp, lens)
    &&& no_start(log) && log.len() >= TRIES ==> {
        &&& took == Took::Done(0, false)
        &&& resp == before.resp()
        &&& lens == before.lens()
    }
    &&& forall|i: int| #[trigger]
        finished_at(log, i) ==> {
            let n = log[i + 2] as int;
            &&& took == Took::Done(verdict(log, i, cmd).0, verdict(log, i, cmd).1)
            &&& resp == splice(before.resp(), 0, data(log, i + 3, n))
            &&& lens == lengths(log, i + 3, n, before.lens())
        }
}

/// Take the next byte. The bytes of the parameters go to `resp` one behind the other, and their
/// lengths to `lens`, each as far as there is room.
pub fn take(r: &mut Receiver, cmd: u8, b: u8, resp: &mut [u8], lens: &mut [usize]) -> (took: Took)
    requires
        old(r).wf(old(resp)@, old(lens)@),
    ensures
        takes(*old(r), cmd, b, *final(r), final(resp)@, final(lens)@, took),
{
    let ghost was = r.log@;
    let ghost log = was.push(b);
    let ghost i = r.start@;
    let ghost at = i + 3;
    r.log = Ghost(log);
    match r.place {
        Place::Sync => {
            if b == START {
                r.place = Place::Command;
                r.start = Ghost(was.len() as int);
                proof {
                    let s = was.len() as int;
                    assert(first_start(log, s));
                    assert forall|j: int| !finished_at(log, j) by {
                        if first_start(log, j) {
                            assert(j == s);
                        }
                    }
                    assert(log[s] == START);
                }
                return Took::More;
            }
            proof {
                assert(no_start(log));
                assert forall|j: int| !finished_at(log, j) by {
                    if first_start(log, j) {
                        assert(log[j] != START);
                    }
                }
            }
            r.tries = r.tries + 1;
            if r.tries < TRIES {
                Took::More
            } else {
                Took::Done(0, false)
            }
        },
        Place::Command => {
            r.rcmd = b;
            r.place = Place::Count;
            proof {
                lemma_first_start_push(was, b, i);
            }
            Took::More
        },
        Place::Count => {
            r.count = b as usize;
            r.place = Place::Length(0);
            proof {
                lemma_first_start_push(was, b, i);
                assert(splice(r.resp@, 0, data(log, at, 0)) =~= r.resp@);
                assert(lengths(log, at, 0, r.lens@) =~= r.lens@);
                lemma_pos_grows(log, at, 0, b as int);
                assert(!finished(log));
            }
            Took::More
        },
        Place::Length(k) => {
            let ghost pos = was.len() as int;
            proof {
                lemma_first_start_push(was, b, i);
                lemma_pos_stable(was, b, at, k as int);
                lemma_pos_grows(was, at, k as int, k as int);
                if k > 0 {
                    lemma_pos_grows(was, at, k - 1, k as int);
                }
                lemma_lengths_stable(was, b, at, k as int, r.lens@);
                assert(log[pos] == b);
            }
            if k == r.count {
                proof {
                    assert(finished_at(log, i));
                }
                let valid = r.rcmd == (cmd | REPLY_FLAG) && b == END;
                return Took::Done(r.count, valid);
            }
            proof {
                lemma_pos_grows(log, at, k + 1, r.count as int);
                assert(!finished(log));
            }
            if k < lens.len() {
                lens[k] = b as usize;
            }
            assert(lens@ =~= lengths(log, at, k + 1, r.lens@));
            if b == 0 {
                r.place = Place::Length(k + 1);
                proof {
                    assert(log.subrange(pos + 1, pos + 1) =~= Seq::empty());
                    assert(data(log, at, k + 1) =~= data(log, at, k as int));
                }
            } else {
                r.place = Place::Data(k, b as usize);
                proof {
                    assert(log.subrange(pos + 1, log.len() as int) =~= Seq::empty());
                    assert(data(log, at, k as int) + log.subrange(pos + 1, log.len() as int)
                        =~= data(log, at, k as int));
                }
            }
            Took::More
        },
        Place::Data(k, rest) => {
            let ghost pos = param_pos(was, at, k as int);
            let ghost so_far = data(was, at, k as int) + was.subrange(pos + 1, was.len() as int);
            let ghost now = so_far.push(b);
            let ghost before = resp@;
            proof {
                lemma_first_start_push(was, b, i);
                lemma_pos_stable(was, b, at, k as int);
                assert(log[pos] == was[pos]);
                lemma_pos_grows(log, at, k as int, k + 1);
                lemma_pos_grows(log, at, k + 1, r.count as int);
                assert(!finished(log));
                lemma_lengths_stable(was, b, at, k + 1, r.lens@);
                assert(data(log, at, k as int) + log.subrange(pos + 1, log.len() as int) =~= now);
            }
            if r.off < resp.len() {
                resp[r.off] = b;
                r.off = r.off + 1;
            }
            assert(resp@ =~= splice(r.resp@, 0, now));
            if rest == 1 {
                r.place = Place::Length(k + 1);
                proof {
                    assert(param_pos(log, at, k + 1) == log.len());
                    assert(data(log, at, k + 1) =~= now);
                }
            } else {
                r.place = Place::Data(k, rest - 1);
            }
            Took::More
        },
    }
}

/// A valid reply to a command.
pub open spec fn reply_frame(cmd: u8, params: Seq<Seq<u8>>) -> Seq<u8> {
    seq![START, cmd | REPLY_FLAG, params.len() as u8] + param_bytes(params) + seq![END]
}

/// The parameters, one behind the other.
pub open spec fn joined(params: Seq<Seq<u8>>) -> Seq<u8>
    decreases params.len(),
{
    if params.len() == 0 {
        Seq::empty()
    } else {
        joined(params.drop_last()) + params.last()
    }
}

/// Parameters that a frame can carry: their number, and the length of each, fit a byte.
pub open spec fn encodable(params: Seq<Seq<u8>>) -> bool {
    &&& params.len() < 256
    &&& forall|k: int| 0 <= k < params.len() ==> (#[trigger] params[k]).len() < 256
}

proof fn lemma_params_decoded(log: Seq<u8>, at: int, params: Seq<Seq<u8>>, k: int)
    requires
        encodable(params),
        0 <= k <= params.len(),
        0 <= at,
        at + param_bytes(params).len() <= log.len(),
        log.subrange(at, at + param_bytes(params).len()) == param_bytes(params),
    ensures
        param_pos(log, at, k) == at + param_bytes(params.take(k)).len(),
        data(log, at, k) == joined(params.take(k)),
        k < params.len() ==> param_pos(log, at, k) < at + param_bytes(params).len(),
        k < params.len() ==> log[param_pos(log, at, k)] == params[k].len(),
    decreases k,
{
    let all = param_bytes(params);
    if k > 0 {
        lemma_params_decoded(log, at, params, k - 1);
        let ps = params.take(k);
        assert(ps.drop_last() =~= params.take(k - 1));
        assert(ps.last() == params[k - 1]);
        lemma_param_bytes_prefix(params, k);
        let from = param_pos(log, at, k - 1) + 1;
        let to = param_pos(log, at, k);
        assert(log.subrange(from, to) =~= params[k - 1]) by {
            let last = params[k - 1];
            assert forall|j: int| 0 <= j < last.len() implies log[from + j] == #[trigger] last[j] by {
                assert(param_bytes(ps)[from - at + j] == params[k - 1][j]);
                assert(all[from - at + j] == param_bytes(ps)[from - at + j]);
                assert(log.subrange(at, at + all.len())[from - at + j] == all[from - at + j]);
            }
        }
        assert(data(log, at, k) =~= joined(ps));
    } else {
        assert(params.take(0).len() == 0);
        assert(data(log, at, 0) =~= joined(params.take(0)));
    }
    if k < params.len() {
        let next = params.take(k + 1);
        assert(next.drop_last() =~= params.take(k));
        assert(next.last() == params[k]);
        lemma_param_bytes_prefix(params, k + 1);
        let pos = param_pos(log, at, k);
        let before = param_bytes(params.take(k));
        assert(param_bytes(next) == before + seq![params[k].len() as u8] + params[k]);
        assert(pos - at == before.len());
        assert((params[k].len() as u8) == params[k].len());
        assert(param_bytes(next)[pos - at] == params[k].len() as u8);
        assert(all[pos - at] == param_bytes(next)[pos - at]);
        assert(log.subrange(at, at + all.len())[pos - at] == all[pos - at]);
    }
}

/// A valid reply is received behind any noise without a start byte that is short enough: it counts
/// as valid, with its parameters and their lengths as they were sent.
pub proof fn law_reply_round_trip(
    noise: Seq<u8>,
    cmd: u8,
    params: Seq<Seq<u8>>,
    lens: Seq<usize>,
)
    requires
        no_start(noise),
        noise.len() < TRIES,
        encodable(params),
    ensures
        ({
            let log = noise + reply_frame(cmd, params);
            let i = noise.len() as int;
            let n = params.len() as int;
            &&& finished_at(log, i)
            &&& verdict(log, i, cmd) == (params.len() as usize, true)
            &&& data(log, i + 3, n) == joined(params)
            &&& forall|k: int|
                0 <= k < n && k < lens.len() ==> #[trigger] lengths(log, i + 3, n, lens)[k]
                    == params[k].len()
        }),
{
    let log = noise + reply_frame(cmd, params);
    let i = noise.len() as int;
    let at = i + 3;
    let n = params.len() as int;
    let all = param_bytes(params);
    assert(log[i] == START && log[i + 1] == cmd | REPLY_FLAG && log[i + 2] == params.len() as u8);
    assert(log.subrange(at, at + all.len()) =~= all);
    assert(log.len() == at + all.len() + 1 && log.last() == END);
    assert(first_start(log, i)) by {
        assert forall|j: int| 0 <= j < i implies log[j] != START by {
            assert(noise[j] != START);
        }
    }
    lemma_params_decoded(log, at, params, n);
    assert(params.take(n) =~= params);
    assert forall|k: int| 0 <= k < n && k < lens.len() implies #[trigger] lengths(
        log,
        at,
        n,
        lens,
    )[k] == params[k].len() by {
        lemma_params_decoded(log, at, params, k);
    }
}

/// A frame is valid exactly when it answers the command and ends as a frame does, and it gives the
/// number of parameters that it declares.
pub proof fn law_verdict(log: Seq<u8>, i: int, cmd: u8)
    ensures
        verdict(log, i, cmd).0 == log[i + 2],
        verdict(log, i, cmd).1 <==> log[i + 1] == cmd | 0x80 && log.last() == 0xEE,
{
}

/// Without a start among its first 300 bytes a reply has failed, and not before.
pub proof fn law_start_in_time(log: Seq<u8>)
    requires
        forall|j: int| 0 <= j < log.len() ==> log[j] != 0xE0,
    ensures
        finished(log) <==> log.len() >= 300,
{
    assert forall|i: int| !finished_at(log, i) by {}
}

/// Beyond the parameters of a reply the buffer for the lengths is as it was.
pub proof fn law_lengths_rest(log: Seq<u8>, at: int, k: int, lens: Seq<usize>, j: int)
    requires
        k <= j < lens.len(),
        0 <= j,
    ensures
        lengths(log, at, k, lens).len() == lens.len(),
        lengths(log, at, k, lens)[j] == lens[j],
{
}

/// What `take` does with a byte: it is added to what was received. A frame that is over gives the
/// number of its parameters, and whether it answers the command and ends as a frame does.
pub proof fn law_take(
    r: &mut Receiver,
    cmd: u8,
    b: u8,
    resp: &mut [u8],
    lens: &mut [usize],
    took: Took,
    i: int,
)
    requires
        call_ensures(take, (r, cmd, b, resp, lens), took),
        finished_at(old(r).log().push(b), i),
    ensures
        ({
            let log = old(r).log().push(b);
            &&& final(r).log() == log
            &&& took == Took::Done(
                log[i + 2] as usize,
                log[i + 1] == cmd | 0x80 && b == 0xEE,
            )
            &&& final(resp)@ == splice(old(r).resp(), 0, data(log, i + 3, log[i + 2] as int))
            &&& final(lens)@ == lengths(log, i + 3, log[i + 2] as int, old(r).lens())
        }),
{
    assert(old(r).log().push(b).last() == b);
}

} // verus!
