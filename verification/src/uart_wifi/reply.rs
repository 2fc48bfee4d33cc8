//! Command and reply frames.

use vstd::prelude::*;

verus! {

/// The header of a command frame: its tag and the length of its payload, two bytes, least
/// significant first.
pub open spec fn frame_header(tag: u8, len: int) -> Seq<u8> {
    seq![tag, (len % 256) as u8, (len / 256 % 256) as u8]
}

/// A reply frame as the modem sends it.
pub open spec fn reply_frame(tag: u8, payload: Seq<u8>) -> Seq<u8> {
    seq![0xAAu8, 0x55] + frame_header(tag, payload.len() as int) + payload
}

/// The prefix of a reply stands at index `i`.
pub open spec fn sync_at(log: Seq<u8>, i: int) -> bool {
    &&& 0 <= i
    &&& i + 1 < log.len()
    &&& log[i] == 0xAA
    &&& log[i + 1] == 0x55
}

/// The first prefix of a reply stands at index `i`.
pub open spec fn first_sync(log: Seq<u8>, i: int) -> bool {
    &&& sync_at(log, i)
    &&& forall|j: int| 0 <= j < i ==> !sync_at(log, j)
}

/// The length of the payload that the reply with its prefix at index `i` declares.
pub open spec fn declared(log: Seq<u8>, i: int) -> int {
    log[i + 3] + 256 * log[i + 4]
}

/// What was received ends with the last byte of the first reply in it, the one with its prefix at
/// index `i`.
pub open spec fn complete_at(log: Seq<u8>, i: int) -> bool {
    &&& first_sync(log, i)
    &&& i + 5 <= log.len()
    &&& log.len() == i + 5 + declared(log, i)
}

/// What was received ends with the last byte of the first reply in it.
pub open spec fn complete(log: Seq<u8>) -> bool {
    exists|i: int| complete_at(log, i)
}

/// The result of a reply with its prefix at index `i`, in a buffer of `cap` bytes: its tag, and how
/// much of its payload the buffer holds.
pub open spec fn outcome(log: Seq<u8>, i: int, cap: int) -> (u8, usize) {
    (
        log[i + 2],
        (if declared(log, i) <= cap {
            declared(log, i)
        } else {
            cap
        }) as usize,
    )
}

/// The buffer holds what was received of the payload of the first reply, as far as it has room.
pub open spec fn holds(log: Seq<u8>, buf: Seq<u8>) -> bool {
    forall|i: int, k: int|
        #![trigger first_sync(log, i), buf[k]]
        first_sync(log, i) && 0 <= k < buf.len() && i + 5 + k < log.len() ==> buf[k] == log[i + 5
            + k]
}

/// What a received byte means for a reply.
#[derive(Clone, Copy, Debug, PartialEq, Eq)]
pub enum Step {
    /// The reply goes on: receive another byte.
    More,
    /// The reply is complete (its tag, and the length of what the buffer holds of its payload), or
    /// did not come in time.
    Done(Option<(u8, usize)>),
}

/// Where the receiver is in a reply.
#[derive(Clone, Copy, Debug, PartialEq, Eq, Structural)]
enum Phase {
    Sync,
    Tag,
    Low,
    High,
    Payload,
}

/// A reply being received.
pub struct Reply {
    phase: Phase,
    armed: bool,
    tag: u8,
    len: usize,
    got: usize,
    log: Ghost<Seq<u8>>,
    start: Ghost<int>,
}

impl Reply {
    /// What was received so far.
    pub closed spec fn log(self) -> Seq<u8> {
        self.log@
    }

    /// The receiver stands where what was received says, and the reply is not complete.
    pub closed spec fn wf(self) -> bool {
        let log = self.log@;
        let i = self.start@;
        match self.phase {
            Phase::Sync => {
                &&& forall|j: int| !sync_at(log, j)
                &&& self.armed == (log.len() > 0 && log.last() == 0xAA)
            },
            Phase::Tag => first_sync(log, i) && log.len() == i + 2,
            Phase::Low => first_sync(log, i) && log.len() == i + 3 && self.tag == log[i + 2],
            Phase::High => {
                &&& first_sync(log, i)
                &&& log.len() == i + 4
                &&& self.tag == log[i + 2]
                &&& self.len == log[i + 3]
            },
            Phase::Payload => {
                &&& first_sync(log, i)
                &&& self.tag == log[i + 2]
                &&& self.len == declared(log, i)
                &&& self.got < self.len
                &&& log.len() == i + 5 + self.got
            },
        }
    }

    /// Nothing was received yet.
    pub fn new() -> (r: Reply)
        ensures
            r.wf(),
            r.log() == Seq::<u8>::empty(),
    {
        Reply {
            phase: Phase::Sync,
            armed: false,
            tag: 0,
            len: 0,
            got: 0,
            log: Ghost(Seq::empty()),
            start: Ghost(0),
        }
    }
}

proof fn lemma_first_sync_push(log: Seq<u8>, b: u8, i: int)
    requires
        first_sync(log, i),
    ensures
        first_sync(log.push(b), i),
{
    assert forall|j: int| 0 <= j < i implies !sync_at(log.push(b), j) by {
        assert(!sync_at(log, j));
    }
}

proof fn lemma_first_sync_unique(log: Seq<u8>, i: int, j: int)
    requires
        first_sync(log, i),
        first_sync(log, j),
    ensures
        i == j,
{
    assert(sync_at(log, i) && sync_at(log, j));
}

/// What taking `got` does to a receiver and its buffer, and what it means. Without a byte nothing
/// changes, and the reply has failed. A byte is added to what was received; if it belongs to the
/// payload it goes to its place in the buffer, if there is one.
pub open spec fn takes(
    before: Reply,
    buf: Seq<u8>,
    got: Option<u8>,
    after: Reply,
    now: Seq<u8>,
    step: Step,
) -> bool {
    &&& now.len() == buf.len()
    &&& match got {
        None => step == Step::Done(None) && after == before && now == buf,
        Some(b) => {
            let log = before.log().push(b);
            &&& after.log() == log
            &&& holds(log, now)
            &&& forall|k: int|
                0 <= k < buf.len() && (forall|i: int| first_sync(log, i) ==> i + 5 + k + 1
                    != log.len()) ==> #[trigger] now[k] == buf[k]
            &&& step == Step::More <==> !complete(log)
            &&& step == Step::More ==> after.wf()
            &&& forall|i: int| #[trigger]
                complete_at(log, i) ==> step == Step::Done(
                    Some(outcome(log, i, buf.len() as int)),
                )
        },
    }
}

/// Take what came next: a byte, or `None` if it did not come in time. The payload goes to the front
/// of `buf`; what of it finds no room there is dropped.
pub fn read_reply(r: &mut Reply, buf: &mut [u8], got: Option<u8>) -> (step: Step)
    requires
        old(r).wf(),
        holds(old(r).log(), old(buf)@),
    ensures
        takes(*old(r), old(buf)@, got, *final(r), final(buf)@, step),
{
    let b: u8 = match got {
        None => {
            return Step::Done(None);
        },
        Some(b) => b,
    };
    let ghost was = r.log@;
    let ghost log = was.push(b);
    let ghost i = r.start@;
    r.log = Ghost(log);
    match r.phase {
        Phase::Sync => {
            proof {
                assert forall|j: int| #[trigger] sync_at(log, j) implies j == log.len() - 2 by {
                    if j < log.len() - 2 {
                        assert(!sync_at(was, j));
                    }
                }
            }
            if r.armed && b == 0x55 {
                r.phase = Phase::Tag;
                r.start = Ghost(log.len() - 2);
                proof {
                    assert(first_sync(log, log.len() - 2));
                    lemma_not_complete(log, log.len() - 2);
                }
            } else {
                r.armed = b == 0xAA;
                proof {
                    assert forall|j: int| !sync_at(log, j) by {
                        if sync_at(log, j) {
                            assert(was.last() == log[j]);
                        }
                    }
                }
            }
            Step::More
        },
        Phase::Tag => {
            r.tag = b;
            r.phase = Phase::Low;
            proof {
                lemma_first_sync_push(was, b, i);
                lemma_not_complete(log, i);
            }
            Step::More
        },
        Phase::Low => {
            r.len = b as usize;
            r.phase = Phase::High;
            proof {
                lemma_first_sync_push(was, b, i);
                lemma_not_complete(log, i);
            }
            Step::More
        },
        Phase::High => {
            r.len = r.len + b as usize * 256;
            r.got = 0;
            r.phase = Phase::Payload;
            proof {
                lemma_first_sync_push(was, b, i);
                lemma_complete(log, i);
                lemma_holds(log, i, buf@);
            }
            if r.len > 0 {
                Step::More
            } else {
                Step::Done(Some((r.tag, 0)))
            }
        },
        Phase::Payload => {
            let ghost before = buf@;
            if r.got < buf.len() {
                buf[r.got] = b;
            }
            proof {
                lemma_first_sync_push(was, b, i);
                lemma_complete(log, i);
                assert forall|k: int| 0 <= k < buf@.len() && i + 5 + k < log.len() implies buf@[k]
                    == log[i + 5 + k] by {
                    if k < r.got {
                        assert(first_sync(was, i) && before[k] == was[i + 5 + k]);
                    }
                }
                lemma_holds(log, i, buf@);
            }
            r.got = r.got + 1;
            if r.got < r.len {
                Step::More
            } else if r.len <= buf.len() {
                Step::Done(Some((r.tag, r.len)))
            } else {
                Step::Done(Some((r.tag, buf.len())))
            }
        },
    }
}

proof fn lemma_not_complete(log: Seq<u8>, i: int)
    requires
        first_sync(log, i),
        log.len() < i + 5,
    ensures
        !complete(log),
        forall|buf: Seq<u8>| holds(log, buf),
{
    assert forall|j: int| !complete_at(log, j) by {
        if complete_at(log, j) {
            lemma_first_sync_unique(log, i, j);
        }
    }
    assert forall|buf: Seq<u8>| holds(log, buf) by {
        assert forall|j: int, k: int|
            #![trigger first_sync(log, j), buf[k]]
            first_sync(log, j) && 0 <= k < buf.len() implies j + 5 + k >= log.len() by {
            lemma_first_sync_unique(log, i, j);
        }
    }
}

proof fn lemma_complete(log: Seq<u8>, i: int)
    requires
        first_sync(log, i),
        log.len() >= i + 5,
    ensures
        complete(log) <==> log.len() == i + 5 + declared(log, i),
        forall|j: int| first_sync(log, j) ==> j == i,
{
    assert forall|j: int| first_sync(log, j) implies j == i by {
        lemma_first_sync_unique(log, i, j);
    }
    if log.len() == i + 5 + declared(log, i) {
        assert(complete_at(log, i));
    }
}

proof fn lemma_holds(log: Seq<u8>, i: int, buf: Seq<u8>)
    requires
        first_sync(log, i),
        forall|k: int| 0 <= k < buf.len() && i + 5 + k < log.len() ==> buf[k] == log[i + 5 + k],
    ensures
        holds(log, buf),
{
    assert forall|j: int, k: int|
        #![trigger first_sync(log, j), buf[k]]
        first_sync(log, j) && 0 <= k < buf.len() && j + 5 + k < log.len() implies buf[k] == log[j
        + 5 + k] by {
        lemma_first_sync_unique(log, i, j);
    }
}

/// The header of the command frame with a payload of `len` bytes, which goes out before the payload.
pub fn send_frame(tag: u8, len: usize) -> (header: [u8; 3])
    ensures
        header@ == frame_header(tag, len as int),
{
    let header = [tag, (len % 256) as u8, (len / 256 % 256) as u8];
    assert(header@ =~= frame_header(tag, len as int));
    header
}

/// What to do next in an exchange of a command for a reply.
#[derive(Clone, Copy, Debug, PartialEq, Eq)]
pub enum Action {
    /// Write the header of the command.
    WriteHeader([u8; 3]),
    /// Write the payload of the command.
    WritePayload,
    /// Receive a byte.
    Receive,
    /// The exchange is over: the tag of the reply and the length of what the buffer holds of its
    /// payload, or `None` if a byte did not come in time.
    Done(Option<(u8, usize)>),
}

/// How far an exchange has come.
#[derive(Clone, Copy, Debug, PartialEq, Eq, Structural)]
pub enum Stage {
    /// Nothing was done.
    Start,
    /// The header was written.
    Header,
    /// The payload was written.
    Payload,
    /// The reply is being received.
    Receiving,
}

/// An exchange of a command for a reply.
pub struct Exchange {
    tag: u8,
    len: usize,
    stage: Stage,
    reply: Reply,
}

impl Exchange {
    /// Tag of the command.
    pub closed spec fn tag(self) -> u8 {
        self.tag
    }

    /// Length of the payload of the command.
    pub closed spec fn len(self) -> int {
        self.len as int
    }

    /// How far the exchange has come.
    pub closed spec fn stage(self) -> Stage {
        self.stage
    }

    /// The reply.
    pub closed spec fn reply(self) -> Reply {
        self.reply
    }

    /// Begin an exchange of a command with a payload of `len` bytes.
    pub fn new(tag: u8, len: usize) -> (x: Exchange)
        ensures
            x.tag() == tag,
            x.len() == len,
            x.stage() == Stage::Start,
            x.reply().wf(),
            x.reply().log() == Seq::<u8>::empty(),
    {
        Exchange { tag, len, stage: Stage::Start, reply: Reply::new() }
    }
}

/// The next step of an exchange: the command goes out, header and then payload, and then the reply
/// is received. `got` is what came for the byte last asked for, and counts only while receiving.
pub fn cmd(x: &mut Exchange, buf: &mut [u8], got: Option<u8>) -> (next: Action)
    requires
        old(x).reply().wf(),
        holds(old(x).reply().log(), old(buf)@),
    ensures
        final(x).tag() == old(x).tag(),
        final(x).len() == old(x).len(),
        old(x).stage() != Stage::Receiving ==> {
            &&& final(x).reply() == old(x).reply()
            &&& final(buf)@ == old(buf)@
        },
        match old(x).stage() {
            Stage::Start => {
                &&& next matches Action::WriteHeader(header) && header@ == frame_header(
                    old(x).tag(),
                    old(x).len(),
                )
                &&& final(x).stage() == Stage::Header
            },
            Stage::Header => if old(x).len() > 0 {
                next == Action::WritePayload && final(x).stage() == Stage::Payload
            } else {
                next == Action::Receive && final(x).stage() == Stage::Receiving
            },
            Stage::Payload => next == Action::Receive && final(x).stage() == Stage::Receiving,
            Stage::Receiving => {
                &&& final(x).stage() == Stage::Receiving
                &&& exists|step: Step|
                    {
                        &&& #[trigger] takes(
                            old(x).reply(),
                            old(buf)@,
                            got,
                            final(x).reply(),
                            final(buf)@,
                            step,
                        )
                        &&& next == match step {
                            Step::More => Action::Receive,
                            Step::Done(r) => Action::Done(r),
                        }
                    }
            },
        },
{
    match x.stage {
        Stage::Start => {
            x.stage = Stage::Header;
            Action::WriteHeader(send_frame(x.tag, x.len))
        },
        Stage::Header => if x.len > 0 {
            x.stage = Stage::Payload;
            Action::WritePayload
        } else {
            x.stage = Stage::Receiving;
            Action::Receive
        },
        Stage::Payload => {
            x.stage = Stage::Receiving;
            Action::Receive
        },
        Stage::Receiving => {
            let ghost before = x.reply;
            let ghost was = buf@;
            let step = read_reply(&mut x.reply, buf, got);
            assert(takes(before, was, got, x.reply, buf@, step));
            match step {
                Step::More => Action::Receive,
                Step::Done(r) => Action::Done(r),
            }
        },
    }
}

/// A reply is found behind any noise that does not itself hold the prefix, not before its last byte,
/// and with its tag and payload as they were sent. A buffer of enough room then holds the payload.
pub proof fn law_reply_round_trip(noise: Seq<u8>, tag: u8, payload: Seq<u8>, buf: Seq<u8>)
    requires
        forall|j: int| !sync_at(noise, j),
        payload.len() < 0x1_0000,
        holds(noise + reply_frame(tag, payload), buf),
    ensures
        ({
            let log = noise + reply_frame(tag, payload);
            let i = noise.len() as int;
            &&& complete_at(log, i)
            &&& forall|n: int| 0 <= n < log.len() ==> !complete(#[trigger] log.take(n))
            &&& outcome(log, i, buf.len() as int).0 == tag
            &&& payload.len() <= buf.len() ==> outcome(log, i, buf.len() as int).1 == payload.len()
            &&& payload.len() <= buf.len() ==> buf.take(payload.len() as int) == payload
            &&& payload.len() > buf.len() ==> outcome(log, i, buf.len() as int).1 == buf.len() as usize
            &&& payload.len() > buf.len() ==> buf == payload.take(buf.len() as int)
        }),
{
    let log = noise + reply_frame(tag, payload);
    let i = noise.len() as int;
    assert(log[i] == 0xAA && log[i + 1] == 0x55 && log[i + 2] == tag);
    assert(log[i + 3] == (payload.len() % 256) as u8 && log[i + 4] == (payload.len() / 256
        % 256) as u8);
    assert(forall|k: int| 0 <= k < payload.len() ==> log[i + 5 + k] == payload[k]);
    assert(first_sync(log, i)) by {
        assert forall|j: int| 0 <= j < i implies !sync_at(log, j) by {
            assert(!sync_at(noise, j));
        }
    }
    assert(declared(log, i) == payload.len());
    assert forall|n: int| 0 <= n < log.len() implies !complete(#[trigger] log.take(n)) by {
        let part = log.take(n);
        assert forall|j: int| !complete_at(part, j) by {
            if complete_at(part, j) {
                assert(sync_at(log, j));
                if j < i {
                    assert(!sync_at(noise, j));
                } else if i < j {
                    assert(sync_at(part, i));
                } else {
                    assert(declared(part, i) == payload.len());
                }
            }
        }
    }
    assert forall|k: int| 0 <= k < buf.len() && k < payload.len() implies buf[k] == payload[k] by {
        assert(first_sync(log, i) && buf[k] == log[i + 5 + k]);
    }
    if payload.len() <= buf.len() {
        assert(buf.take(payload.len() as int) =~= payload);
    } else {
        assert(buf =~= payload.take(buf.len() as int));
    }
}

/// A header holds the tag and the whole length of a payload below 65536 bytes, low byte first, and a
/// reply is the prefix `AA 55`, a header and the payload.
pub proof fn law_frames(tag: u8, payload: Seq<u8>)
    requires
        payload.len() < 0x1_0000,
    ensures
        frame_header(tag, payload.len() as int).len() == 3,
        frame_header(tag, payload.len() as int)[0] == tag,
        frame_header(tag, payload.len() as int)[1] + 256 * frame_header(
            tag,
            payload.len() as int,
        )[2] == payload.len(),
        reply_frame(tag, payload).len() == 5 + payload.len(),
        reply_frame(tag, payload)[0] == 0xAA,
        reply_frame(tag, payload)[1] == 0x55,
        reply_frame(tag, payload).subrange(2, 5) == frame_header(tag, payload.len() as int),
        reply_frame(tag, payload).skip(5) == payload,
{
    assert(reply_frame(tag, payload).subrange(2, 5) =~= frame_header(tag, payload.len() as int));
    assert(reply_frame(tag, payload).skip(5) =~= payload);
}

/// The length that a reply declares is that of its two length bytes, and a buffer gets all of the
/// payload that it has room for.
pub proof fn law_outcome(log: Seq<u8>, i: int, cap: int)
    requires
        0 <= cap <= usize::MAX,
    ensures
        outcome(log, i, cap).0 == log[i + 2],
        declared(log, i) == log[i + 3] + 256 * log[i + 4],
        declared(log, i) <= cap ==> outcome(log, i, cap).1 == declared(log, i),
        declared(log, i) > cap ==> outcome(log, i, cap).1 == cap,
{
}

/// What `send_frame` returns: the tag, and the length of a payload below 65536 bytes, low byte first.
pub proof fn law_send_frame(tag: u8, len: usize, header: [u8; 3])
    requires
        len < 0x1_0000,
        call_ensures(send_frame, (tag, len), header),
    ensures
        header@[0] == tag,
        header@[1] + 256 * header@[2] == len,
{
}

/// What `read_reply` does with a byte: it is added to what was received. The reply goes on until the
/// last byte of the first one behind the prefix; then its tag is given, and how much of its payload
/// the buffer holds, which is all that it has room for.
pub proof fn law_read_reply(r: &mut Reply, buf: &mut [u8], b: u8, step: Step, i: int, k: int)
    requires
        old(buf)@.len() <= usize::MAX,
        call_ensures(read_reply, (r, buf, Some(b)), step),
    ensures
        final(r).log() == old(r).log().push(b),
        final(buf)@.len() == old(buf)@.len(),
        ({
            let log = old(r).log().push(b);
            let first = {
                &&& 0 <= i <= log.len() - 5
                &&& log[i] == 0xAA && log[i + 1] == 0x55
                &&& forall|j: int| 0 <= j < i ==> !(#[trigger] log[j] == 0xAA && log[j + 1] == 0x55)
            };
            let len = log[i + 3] + 256 * log[i + 4];
            let cap = old(buf)@.len();
            &&& first && log.len() == i + 5 + len ==> step == Step::Done(
                Some(
                    (
                        log[i + 2],
                        (if len <= cap {
                            len
                        } else {
                            cap as int
                        }) as usize,
                    ),
                ),
            )
            &&& first && log.len() != i + 5 + len ==> step == Step::More
            &&& first && 0 <= k < cap && i + 5 + k < log.len() ==> final(buf)@[k] == log[i + 5 + k]
        }),
{
    let log = old(r).log().push(b);
    let len = log[i + 3] + 256 * log[i + 4];
    if 0 <= i <= log.len() - 5 && log[i] == 0xAA && log[i + 1] == 0x55 && (forall|j: int|
        0 <= j < i ==> !(#[trigger] log[j] == 0xAA && log[j + 1] == 0x55)) {
        assert(first_sync(log, i)) by {
            assert forall|j: int| 0 <= j < i implies !sync_at(log, j) by {
                assert(!(log[j] == 0xAA && log[j + 1] == 0x55));
            }
        }
        lemma_complete(log, i);
        if log.len() == i + 5 + len {
            assert(complete_at(log, i));
        }
        if 0 <= k < old(buf)@.len() && i + 5 + k < log.len() {
            assert(first_sync(log, i) && final(buf)@[k] == log[i + 5 + k]);
        }
    }
}

/// What `read_reply` does where no byte came in time: the reply has failed, and nothing changes.
pub proof fn law_reply_timeout(r: &mut Reply, buf: &mut [u8], step: Step)
    requires
        call_ensures(read_reply, (r, buf, None), step),
    ensures
        step == Step::Done(None),
        *final(r) == *old(r),
        final(buf)@ == old(buf)@,
{
}

} // verus!
