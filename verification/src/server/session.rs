//! The life of the server: join the network, listen, and answer one client after the other.

use vstd::prelude::*;

use super::{accepted, client_there, joined, Inbox, Plan, Poll, Server, POLL_MS};
use super::{plan_of, state_after};
use crate::uart_wifi::{CMD_ACCEPT, CMD_CLOSE, CMD_CONNECT, CMD_LISTEN, CMD_RECV};

verus! {

/// How long the modem may take to join the network, in milliseconds.
pub const JOIN_MS: u64 = 35000;

/// How long it may take to listen.
pub const LISTEN_MS: u64 = 2000;

/// How long it may take to say whether a client is there.
pub const ACCEPT_MS: u64 = 1500;

/// How long it may take to hand over what a client sent.
pub const RECV_MS: u64 = 1000;

/// How long it may take to close a connection.
pub const CLOSE_MS: u64 = 2000;

/// How long to wait before asking for a client again.
pub const IDLE_MS: u64 = 20;

/// The port of the server, as the modem takes it: 80, least significant byte first.
pub const PORT: [u8; 2] = [80, 0];

/// What to do next.
#[derive(Clone, Copy, Debug, PartialEq, Eq)]
pub enum Task {
    /// Exchange the command for a reply, within so many milliseconds for each byte of it.
    Command(u8, u64),
    /// Show the address.
    Announce([u8; 4]),
    /// Wait for so many milliseconds.
    Sleep(u64),
    /// Serve a request.
    Serve(Plan),
    /// Stop for good: the network could not be joined.
    Halt,
}

/// What is being done.
#[derive(Clone, Copy, Debug, PartialEq, Eq, Structural)]
pub enum Phase {
    Start,
    Joining,
    Announcing,
    Listening,
    Accepting,
    Idling,
    Receiving,
    /// A pause between two polls; the flag says that the last poll was made.
    Pausing(bool),
    Serving,
    Closing,
    Halted,
}

/// The server at work.
pub struct Session {
    phase: Phase,
    server: Server,
    inbox: Inbox,
}

impl Session {
    /// What is being done.
    pub closed spec fn phase(self) -> Phase {
        self.phase
    }

    /// What is remembered from request to request.
    pub closed spec fn server(self) -> Server {
        self.server
    }

    /// The request being received.
    pub closed spec fn inbox(self) -> Inbox {
        self.inbox
    }

    /// What holds at any time.
    pub closed spec fn wf(self) -> bool {
        &&& self.server.wf()
        &&& self.inbox.wf()
        &&& self.phase == Phase::Receiving ==> self.inbox.polls() < super::POLLS
        &&& self.phase == Phase::Pausing(false) ==> self.inbox.polls() < super::POLLS
    }

    /// A server that has done nothing yet, whose camera is set up for QVGA.
    pub fn new() -> (s: Session)
        ensures
            s.wf(),
            s.phase() == Phase::Start,
            s.server().res() == 1,
            !s.server().jpeg(),
            s.server().frames() == 0,
    {
        Session { phase: Phase::Start, server: Server::new(), inbox: Inbox::new() }
    }

    /// Width and height of the current resolution.
    pub fn size(&self) -> (wh: (usize, usize))
        requires
            self.wf(),
        ensures
            wh == super::RES[self.server().res() as int],
            0 < wh.0 <= super::MAXW,
            0 < wh.1 <= super::MAXH,
    {
        self.server.size()
    }

    /// Frames that were served.
    pub fn frames_served(&self) -> (n: u32)
        ensures
            n == self.server().frames(),
    {
        self.server.frames_served()
    }

    /// Count a served frame. Returns its number.
    pub fn count_frame(&mut self) -> (n: u32)
        requires
            old(self).wf(),
            old(self).server().frames() < u32::MAX,
        ensures
            final(self).wf(),
            final(self).phase() == old(self).phase(),
            final(self).inbox() == old(self).inbox(),
            final(self).server().res() == old(self).server().res(),
            final(self).server().jpeg() == old(self).server().jpeg(),
            final(self).server().frames() == old(self).server().frames() + 1,
            n == final(self).server().frames(),
    {
        self.server.count_frame()
    }

    /// The next task once the one being done is over. `got` is what a command gave (a reply's tag
    /// and length, its payload in `reply`), and counts only after one.
    pub fn next(&mut self, got: Option<(u8, usize)>, reply: &[u8]) -> (task: Task)
        requires
            old(self).wf(),
            got matches Some((_, n)) ==> n <= reply@.len(),
        ensures
            final(self).wf(),
            may_follow(old(self).phase(), final(self).phase()),
            final(self).server().frames() == old(self).server().frames(),
            !(task is Serve) ==> final(self).server() == old(self).server(),
            match old(self).phase() {
                Phase::Start => {
                    &&& task == Task::Command(CMD_CONNECT, JOIN_MS)
                    &&& final(self).phase() == Phase::Joining
                },
                Phase::Joining => if got == Some((0x49u8, 4usize)) {
                    &&& task matches Task::Announce(ip) && ip@ == reply@.take(4)
                    &&& final(self).phase() == Phase::Announcing
                } else {
                    task == Task::Halt && final(self).phase() == Phase::Halted
                },
                Phase::Announcing => {
                    &&& task == Task::Command(CMD_LISTEN, LISTEN_MS)
                    &&& final(self).phase() == Phase::Listening
                },
                Phase::Listening | Phase::Idling | Phase::Closing => {
                    &&& task == Task::Command(CMD_ACCEPT, ACCEPT_MS)
                    &&& final(self).phase() == Phase::Accepting
                },
                Phase::Accepting => if client_there(got, reply@) {
                    &&& task == Task::Command(CMD_RECV, RECV_MS)
                    &&& final(self).phase() == Phase::Receiving
                    &&& final(self).inbox().request() == Seq::<u8>::empty()
                    &&& final(self).inbox().polls() == 0
                } else {
                    task == Task::Sleep(IDLE_MS) && final(self).phase() == Phase::Idling
                },
                Phase::Receiving => {
                    let had = old(self).inbox();
                    let has = final(self).inbox();
                    &&& has.polls() == had.polls() + 1
                    &&& has.request() == super::request_after(had.request(), got, reply@)
                    &&& if super::carries(got) && has.request().len() >= super::ENOUGH {
                        serves(*old(self), *final(self), has.request(), task)
                    } else {
                        &&& task == Task::Sleep(POLL_MS)
                        &&& final(self).phase() == Phase::Pausing(has.polls() >= super::POLLS)
                    }
                },
                Phase::Pausing(last) => {
                    &&& final(self).inbox() == old(self).inbox()
                    &&& if last {
                        serves(*old(self), *final(self), old(self).inbox().request(), task)
                    } else {
                        &&& task == Task::Command(CMD_RECV, RECV_MS)
                        &&& final(self).phase() == Phase::Receiving
                    }
                },
                Phase::Serving => {
                    &&& task == Task::Command(CMD_CLOSE, CLOSE_MS)
                    &&& final(self).phase() == Phase::Closing
                },
                Phase::Halted => task == Task::Halt && final(self).phase() == Phase::Halted,
            },
    {
        match self.phase {
            Phase::Start => {
                self.phase = Phase::Joining;
                Task::Command(CMD_CONNECT, JOIN_MS)
            },
            Phase::Joining => match joined(got, reply) {
                Some(ip) => {
                    self.phase = Phase::Announcing;
                    Task::Announce(ip)
                },
                None => {
                    self.phase = Phase::Halted;
                    Task::Halt
                },
            },
            Phase::Announcing => {
                self.phase = Phase::Listening;
                Task::Command(CMD_LISTEN, LISTEN_MS)
            },
            Phase::Listening | Phase::Idling | Phase::Closing => {
                self.phase = Phase::Accepting;
                Task::Command(CMD_ACCEPT, ACCEPT_MS)
            },
            Phase::Accepting => if accepted(got, reply) {
                self.inbox = Inbox::new();
                self.phase = Phase::Receiving;
                Task::Command(CMD_RECV, RECV_MS)
            } else {
                self.phase = Phase::Idling;
                Task::Sleep(IDLE_MS)
            },
            Phase::Receiving => match self.inbox.take(got, reply) {
                Poll::Enough => {
                    self.phase = Phase::Serving;
                    Task::Serve(self.inbox.plan(&mut self.server))
                },
                Poll::Again(ms) => {
                    self.phase = Phase::Pausing(false);
                    Task::Sleep(ms)
                },
                Poll::Last(ms) => {
                    self.phase = Phase::Pausing(true);
                    Task::Sleep(ms)
                },
            },
            Phase::Pausing(last) => if last {
                self.phase = Phase::Serving;
                Task::Serve(self.inbox.plan(&mut self.server))
            } else {
                self.phase = Phase::Receiving;
                Task::Command(CMD_RECV, RECV_MS)
            },
            Phase::Serving => {
                self.phase = Phase::Closing;
                Task::Command(CMD_CLOSE, CLOSE_MS)
            },
            Phase::Halted => Task::Halt,
        }
    }
}

/// One phase may come after another.
pub open spec fn may_follow(p: Phase, q: Phase) -> bool {
    match p {
        Phase::Start => q == Phase::Joining,
        Phase::Joining => q == Phase::Announcing || q == Phase::Halted,
        Phase::Announcing => q == Phase::Listening,
        Phase::Listening | Phase::Idling | Phase::Closing => q == Phase::Accepting,
        Phase::Accepting => q == Phase::Receiving || q == Phase::Idling,
        Phase::Receiving => q == Phase::Serving || q is Pausing,
        Phase::Pausing(_) => q == Phase::Serving || q == Phase::Receiving,
        Phase::Serving => q == Phase::Closing,
        Phase::Halted => q == Phase::Halted,
    }
}

/// The phases may come one after the other.
pub open spec fn is_history(phases: Seq<Phase>) -> bool {
    forall|i: int|
        0 <= i < phases.len() - 1 ==> may_follow(#[trigger] phases[i], phases[i + 1])
}

/// The first phase from `i` on in which nothing is being received.
proof fn lemma_receiving_ends(phases: Seq<Phase>, i: int) -> (j: int)
    requires
        is_history(phases),
        0 <= i < phases.len(),
        phases[i] == Phase::Receiving || phases[i] is Pausing,
        phases.last() == Phase::Accepting,
    ensures
        i < j < phases.len() - 1,
        phases[j] == Phase::Serving,
        phases[j + 1] == Phase::Closing,
    decreases phases.len() - i,
{
    assert(i < phases.len() - 1);
    assert(may_follow(phases[i], phases[i + 1]));
    if phases[i + 1] == Phase::Serving {
        assert(may_follow(phases[i + 1], phases[i + 2]));
        i + 1
    } else {
        lemma_receiving_ends(phases, i + 1)
    }
}

/// A client that was accepted is served and its connection closed before the next one is asked for.
pub proof fn law_clients_are_closed(phases: Seq<Phase>, i: int)
    requires
        is_history(phases),
        0 <= i < phases.len(),
        phases[i] == Phase::Receiving,
        phases.last() == Phase::Accepting,
    ensures
        exists|j: int|
            i < j < phases.len() - 1 && #[trigger] phases[j] == Phase::Serving && phases[j + 1]
                == Phase::Closing,
{
    let j = lemma_receiving_ends(phases, i);
    assert(phases[j] == Phase::Serving);
}

/// The task is to serve the request `rs`.
pub open spec fn serves(before: Session, after: Session, rs: Seq<u8>, task: Task) -> bool {
    let (res, jpeg) = (before.server().res(), before.server().jpeg());
    &&& task == Task::Serve(plan_of(rs, res, jpeg))
    &&& after.phase() == Phase::Serving
    &&& (after.server().res(), after.server().jpeg()) == state_after(rs, res, jpeg)
}

/// A request is served with what it gets where the camera stands, and the camera counts as set up
/// accordingly.
pub proof fn law_serves(before: Session, after: Session, rs: Seq<u8>, task: Task)
    requires
        serves(before, after, rs, task),
    ensures
        task == Task::Serve(plan_of(rs, before.server().res(), before.server().jpeg())),
        after.phase() == Phase::Serving,
        (after.server().res(), after.server().jpeg()) == state_after(
            rs,
            before.server().res(),
            before.server().jpeg(),
        ),
{
}

/// The port, the pauses, and how long each command may take.
pub proof fn law_times()
    ensures
        PORT@ == seq![80u8, 0],
        (JOIN_MS, LISTEN_MS, ACCEPT_MS) == (35000u64, 2000u64, 1500u64),
        (RECV_MS, CLOSE_MS, IDLE_MS) == (1000u64, 2000u64, 20u64),
{
    assert(PORT@ =~= seq![80u8, 0]);
}

/// What `Session::next` gives: join, show the address, listen, and then for one client after the
/// other accept, receive, serve and close.
pub proof fn law_next(s: &mut Session, tag: u8, n: usize, reply: &[u8], task: Task)
    requires
        n <= reply@.len(),
        call_ensures(Session::next, (s, Some((tag, n)), reply), task),
    ensures
        old(s).phase() == Phase::Start ==> task == Task::Command(0x43, 35000),
        old(s).phase() == Phase::Joining && tag == 0x49 && n == 4 ==> {
            task matches Task::Announce(ip) && ip@ == reply@.take(4)
        },
        old(s).phase() == Phase::Joining && !(tag == 0x49 && n == 4) ==> task == Task::Halt,
        old(s).phase() == Phase::Announcing ==> task == Task::Command(0x4C, 2000),
        old(s).phase() == Phase::Listening || old(s).phase() == Phase::Idling || old(s).phase()
            == Phase::Closing ==> task == Task::Command(0x41, 1500),
        old(s).phase() == Phase::Accepting && tag == 0x41 && n >= 1 && reply@[0] == 1 ==> {
            &&& task == Task::Command(0x52, 1000)
            &&& final(s).inbox().request().len() == 0
        },
        old(s).phase() == Phase::Accepting && !(tag == 0x41 && n >= 1 && reply@[0] == 1) ==> task
            == Task::Sleep(20),
        old(s).phase() == Phase::Pausing(false) ==> task == Task::Command(0x52, 1000),
        old(s).phase() == Phase::Pausing(true) ==> {
            task matches Task::Serve(plan) && plan == plan_of(
                old(s).inbox().request(),
                old(s).server().res(),
                old(s).server().jpeg(),
            )
        },
        old(s).phase() == Phase::Serving ==> task == Task::Command(0x58, 2000),
        old(s).phase() == Phase::Halted ==> task == Task::Halt,
        old(s).phase() != Phase::Serving ==> task != Task::Command(0x58, 2000),
{
}

} // verus!
