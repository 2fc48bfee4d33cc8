//! Pipelined sending over the modem link.
//!
//! Command frames are sent without waiting for each acknowledgement, up to `WINDOW` in flight, so
//! that the link sends one frame while the modem still writes the one before. The modem
//! acknowledges each frame with the number of bytes it wrote; zero means that the client is gone.

use vstd::prelude::*;

verus! {

/// The largest payload of a frame, below what the modem can take (1600).
pub const CHUNK: usize = 1440;

/// Frames in flight. More than two 7-byte acknowledgements would overflow the 16-byte receive FIFO
/// while a frame is being sent.
pub const WINDOW: usize = 2;

/// Tag of an acknowledgement.
pub const ACK: u8 = 0x53;

/// The state of a pipeline.
pub struct Pipe {
    inflight: usize,
    ok: bool,
    sent: Ghost<nat>,
    accepted: Ghost<nat>,
}

/// What a pipeline that was asked to take a frame wants done.
#[derive(Clone, Copy, Debug, PartialEq, Eq, Structural)]
pub enum Push {
    /// The pipeline has failed: drop the frame.
    Drop,
    /// The window is full: collect one acknowledgement, and ask again.
    Ack,
    /// Send the frame.
    Send,
}

/// What a pipeline that was asked to finish wants done.
#[derive(Clone, Copy, Debug, PartialEq, Eq, Structural)]
pub enum Flush {
    /// Collect one acknowledgement, and ask again.
    Ack,
    /// Nothing is left to do; the flag says whether every frame was accepted.
    Done(bool),
}

/// What came back for a frame says that the modem wrote some of it.
pub open spec fn accepts(got: Option<(u8, usize)>, reply: Seq<u8>) -> bool {
    acknowledges(got) && reply[0] + 256 * reply[1] != 0
}

/// What came back for a frame is an acknowledgement.
pub open spec fn acknowledges(got: Option<(u8, usize)>) -> bool {
    match got {
        Some((tag, n)) => tag == ACK && n >= 2,
        None => false,
    }
}

/// What a pipeline wants done with a frame.
pub open spec fn push_step(ok: bool, inflight: nat) -> Push {
    if !ok {
        Push::Drop
    } else if inflight >= WINDOW {
        Push::Ack
    } else {
        Push::Send
    }
}

/// What a pipeline wants done to finish.
pub open spec fn flush_step(more: bool, ok: bool, inflight: nat) -> Flush {
    if more && inflight > 0 {
        Flush::Ack
    } else {
        Flush::Done(ok)
    }
}

/// Frames in flight once something came back for one.
pub open spec fn inflight_after(inflight: nat) -> nat {
    if inflight > 0 {
        (inflight - 1) as nat
    } else {
        0
    }
}

impl Pipe {
    /// Frames sent and not acknowledged.
    pub closed spec fn inflight(self) -> nat {
        self.inflight as nat
    }

    /// No frame has failed.
    pub closed spec fn ok(self) -> bool {
        self.ok
    }

    /// Frames sent since the pipeline was made.
    pub closed spec fn sent(self) -> nat {
        self.sent@
    }

    /// Frames that the modem accepted.
    pub closed spec fn accepted(self) -> nat {
        self.accepted@
    }

    /// The window is never exceeded, and while nothing has failed each frame sent is in flight or
    /// was accepted.
    pub closed spec fn wf(self) -> bool {
        &&& self.inflight <= WINDOW
        &&& self.ok ==> self.sent@ == self.accepted@ + self.inflight
    }

    /// A pipeline with nothing in flight.
    pub fn new() -> (p: Pipe)
        ensures
            p.wf(),
            p.ok(),
            p.inflight() == 0,
            p.sent() == 0,
            p.accepted() == 0,
    {
        Pipe { inflight: 0, ok: true, sent: Ghost(0), accepted: Ghost(0) }
    }

    /// No frame has failed so far.
    pub fn is_ok(&self) -> (ok: bool)
        ensures
            ok == self.ok(),
    {
        self.ok
    }

    /// Take what came back for the oldest frame in flight (a reply's tag and length, its payload in
    /// `reply`), freeing a slot of the window. Returns false on failure.
    pub fn ack(&mut self, got: Option<(u8, usize)>, reply: &[u8]) -> (more: bool)
        requires
            old(self).wf(),
            acknowledges(got) ==> old(self).inflight() > 0 && reply@.len() >= 2,
        ensures
            final(self).wf(),
            final(self).inflight() == inflight_after(old(self).inflight()),
            final(self).ok() == (old(self).ok() && accepts(got, reply@)),
            final(self).sent() == old(self).sent(),
            final(self).accepted() == old(self).accepted() + if accepts(got, reply@) {
                1nat
            } else {
                0
            },
            more == final(self).ok(),
    {
        match got {
            Some((tag, n)) => {
                if tag == ACK && n >= 2 {
                    self.inflight = self.inflight - 1;
                    if reply[0] == 0 && reply[1] == 0 {
                        self.ok = false;
                    } else {
                        self.accepted = Ghost(self.accepted@ + 1);
                    }
                    return self.ok;
                }
            },
            None => {},
        }
        if self.inflight > 0 {
            self.inflight = self.inflight - 1;
        }
        self.ok = false;
        false
    }

    /// Ask to send one frame. On `Send` the frame counts as sent.
    pub fn push(&mut self) -> (step: Push)
        requires
            old(self).wf(),
        ensures
            final(self).wf(),
            step == push_step(old(self).ok(), old(self).inflight()),
            step == Push::Send ==> final(self).inflight() == old(self).inflight() + 1,
            step == Push::Send ==> final(self).sent() == old(self).sent() + 1,
            step == Push::Send ==> final(self).ok() && final(self).accepted() == old(
                self,
            ).accepted(),
            step != Push::Send ==> *final(self) == *old(self),
    {
        if !self.ok {
            Push::Drop
        } else if self.inflight >= WINDOW {
            Push::Ack
        } else {
            self.inflight = self.inflight + 1;
            self.sent = Ghost(self.sent@ + 1);
            Push::Send
        }
    }

    /// Ask to finish; `more` is true at first and then what `ack` returned. The acknowledgements in
    /// flight are collected up to the first failure.
    pub fn flush(&self, more: bool) -> (step: Flush)
        requires
            self.wf(),
            more || !self.ok(),
        ensures
            step == flush_step(more, self.ok(), self.inflight()),
            step == Flush::Done(true) ==> self.accepted() == self.sent(),
    {
        if more && self.inflight > 0 {
            Flush::Ack
        } else {
            Flush::Done(self.ok)
        }
    }
}

/// At most two frames are ever in flight.
pub proof fn law_window(p: Pipe)
    requires
        p.wf(),
    ensures
        p.inflight() <= 2,
{
}

/// A pipeline that has not failed accounts for every frame: sent is accepted or in flight. So one
/// with nothing in flight had every frame accepted.
pub proof fn law_all_accepted(p: Pipe)
    requires
        p.wf(),
        p.ok(),
    ensures
        p.sent() == p.accepted() + p.inflight(),
        p.inflight() == 0 ==> p.sent() == p.accepted(),
{
}

/// The end of the chunk of a string of `len` bytes that begins at `off`.
pub open spec fn chunk_end(len: int, off: int) -> int {
    if len - off > CHUNK {
        off + CHUNK
    } else {
        len
    }
}

/// The chunks of a string from index `off` on.
pub open spec fn chunks(s: Seq<u8>, off: int) -> Seq<Seq<u8>>
    decreases s.len() - off,
{
    if 0 <= off < s.len() {
        seq![s.subrange(off, chunk_end(s.len() as int, off))] + chunks(
            s,
            chunk_end(s.len() as int, off),
        )
    } else {
        Seq::empty()
    }
}

/// The strings of a list, one behind the other.
pub open spec fn joined(list: Seq<Seq<u8>>) -> Seq<u8>
    decreases list.len(),
{
    if list.len() == 0 {
        Seq::empty()
    } else {
        list[0] + joined(list.drop_first())
    }
}

/// The chunks, one behind the other, are the string, and none is empty or larger than a frame.
pub proof fn law_chunks(s: Seq<u8>, off: int)
    requires
        0 <= off <= s.len(),
    ensures
        joined(chunks(s, off)) == s.skip(off),
        forall|i: int|
            0 <= i < chunks(s, off).len() ==> 0 < (#[trigger] chunks(s, off)[i]).len() <= CHUNK,
    decreases s.len() - off,
{
    if off < s.len() {
        let end = chunk_end(s.len() as int, off);
        law_chunks(s, end);
        let list = chunks(s, off);
        assert(list.drop_first() =~= chunks(s, end));
        assert(s.subrange(off, end) + s.skip(end) =~= s.skip(off));
    } else {
        assert(s.skip(off) =~= Seq::empty());
    }
}

/// The next chunk of a string of `len` bytes of which `off` bytes have been pushed: where it ends,
/// or `None` if nothing is left.
pub fn send_all(len: usize, off: usize) -> (end: Option<usize>)
    requires
        off <= len,
    ensures
        end == if off < len {
            Some(chunk_end(len as int, off as int) as usize)
        } else {
            None::<usize>
        },
{
    if off >= len {
        None
    } else if len - off > CHUNK {
        Some(off + CHUNK)
    } else {
        Some(len)
    }
}

/// A frame is accepted exactly when an acknowledgement (tag `S`, at least two bytes) counts any
/// bytes at all, however many: only a count of zero says that the client is gone.
pub proof fn law_accepts(tag: u8, n: usize, reply: Seq<u8>)
    requires
        reply.len() >= 2,
    ensures
        accepts(Some((tag, n)), reply) <==> tag == 83 && n >= 2 && (reply[0] != 0 || reply[1] != 0),
        acknowledges(Some((tag, n))) <==> tag == 83 && n >= 2,
        !accepts(None, reply),
        !acknowledges(None),
{
}

/// A chunk that begins before the end of a string has all that is left, or 1440 bytes if that is
/// less.
pub proof fn law_chunk_end(len: int, off: int)
    requires
        0 <= off < len,
    ensures
        off < chunk_end(len, off) <= len,
        chunk_end(len, off) - off <= 1440,
        chunk_end(len, off) == len || chunk_end(len, off) - off == 1440,
{
}

/// While nothing has failed a frame is sent as long as fewer than two are in flight, and else one
/// reply is collected, which makes room for it; once something has failed it is dropped.
pub proof fn law_push(ok: bool, inflight: nat)
    ensures
        push_step(ok, inflight) is Drop <==> !ok,
        push_step(ok, inflight) is Send <==> ok && inflight <= 1,
        ok && inflight == 2 ==> push_step(ok, inflight) is Ack && push_step(
            ok,
            inflight_after(inflight),
        ) is Send,
{
}

/// A pipeline is finished once nothing is in flight, or with the first failure; each reply that is
/// collected leaves one frame fewer in flight. The outcome is whether anything has failed.
pub proof fn law_flush(more: bool, ok: bool, inflight: nat)
    ensures
        flush_step(more, ok, inflight) is Ack <==> more && inflight >= 1,
        !(flush_step(more, ok, inflight) is Ack) ==> flush_step(more, ok, inflight) == Flush::Done(ok),
        inflight >= 1 ==> inflight_after(inflight) + 1 == inflight,
        inflight_after(0) == 0,
{
}

/// What `Pipe::ack` does: a frame fewer is in flight, and the pipeline goes on exactly if it had not
/// failed before and an acknowledgement counts any bytes at all.
pub proof fn law_ack(p: &mut Pipe, tag: u8, n: usize, reply: &[u8], more: bool)
    requires
        reply@.len() >= 2,
        old(p).inflight() > 0,
        call_ensures(Pipe::ack, (p, Some((tag, n)), reply), more),
    ensures
        more == final(p).ok(),
        more <==> old(p).ok() && tag == 83 && n >= 2 && (reply@[0] != 0 || reply@[1] != 0),
        final(p).inflight() + 1 == old(p).inflight(),
        final(p).sent() == old(p).sent(),
{
    law_accepts(tag, n, reply@);
}

/// What `Pipe::ack` does where no reply came: the pipeline has failed.
pub proof fn law_no_ack(p: &mut Pipe, reply: &[u8], more: bool)
    requires
        call_ensures(Pipe::ack, (p, None, reply), more),
    ensures
        !more,
        !final(p).ok(),
{
}

/// What `Pipe::push` does: while nothing has failed, a frame is sent if fewer than two are in flight,
/// and else a reply must be collected first; a failed pipeline drops it.
pub proof fn law_push_frame(p: &mut Pipe, step: Push)
    requires
        call_ensures(Pipe::push, (p,), step),
    ensures
        step is Drop <==> !old(p).ok(),
        step is Send <==> old(p).ok() && old(p).inflight() < 2,
        step is Send ==> final(p).ok() && final(p).inflight() == old(p).inflight() + 1,
        !(step is Send) ==> *final(p) == *old(p),
{
}

/// What `send_all` returns: the end of the next piece, of 1440 bytes or all that is left.
pub proof fn law_send_all(len: usize, off: usize, end: Option<usize>)
    requires
        off <= len,
        call_ensures(send_all, (len, off), end),
    ensures
        end is None <==> off == len,
        end matches Some(e) ==> off < e <= len && (e == len && e - off <= 1440 || e - off == 1440),
{
}

} // verus!
