//! Link to the WiFi modem over a UART.
//!
//! A command goes out as tag, length (two bytes, least significant first) and payload. A reply comes
//! back in the same form behind the prefix `AA 55`, which lets the receiver find its way past line
//! noise.
//!
//! Nothing here touches the UART. Each operation is a machine: it says what to do on the wire next
//! (`Wire`), and takes the answer with the next step.

pub mod reply;

use vstd::prelude::*;

use crate::bytes::splice;
use crate::clock::{deadline, end_of, waits};
use crate::gpio::{gpo, with_level};
use crate::query::occurs;

pub use reply::{cmd, read_reply, send_frame};

verus! {

pub const CMD_PING: u8 = 0x50;

pub const CMD_CONNECT: u8 = 0x43;

pub const CMD_LISTEN: u8 = 0x4C;

pub const CMD_ACCEPT: u8 = 0x41;

pub const CMD_RECV: u8 = 0x52;

pub const CMD_SEND: u8 = 0x53;

/// Send RGB565 bytes, which the modem expands to 24-bit pixels.
pub const CMD_SEND565: u8 = 0x42;

pub const CMD_CLOSE: u8 = 0x58;

/// Clock of the UART.
pub const APB0: u32 = 195_000_000;

/// Pin of the modem's chip-enable line.
pub const EN_CH: u32 = 0;

/// What the modem sends once its firmware runs: `AA 55 M D M 1`.
pub const MARKER: [u8; 6] = [0xAA, 0x55, 0x4D, 0x44, 0x4D, 0x31];

/// What to do on the wire.
#[derive(Clone, Copy, Debug, PartialEq, Eq, Structural)]
pub enum Wire {
    /// Read the machine timer.
    ReadTime,
    /// Read the line status register.
    ReadStatus,
    /// Read the receive register.
    ReadData,
    /// Write the transmit register.
    WriteData(u8),
    /// Nothing: the operation is over.
    Done,
}

/// The line status says that a byte was received.
pub open spec fn rx_ready(status: u64) -> bool {
    status % 2 == 1
}

/// The line status says that there is room to transmit.
pub open spec fn tx_ready(status: u64) -> bool {
    status / 32 % 2 == 1
}

/// The byte in the receive register.
pub open spec fn received(data: u64) -> u8 {
    (data % 256) as u8
}

/// Whether the line status says that a byte was received.
pub fn has_byte(status: u64) -> (r: bool)
    ensures
        r == rx_ready(status),
{
    status % 2 == 1
}

/// Whether the line status says that there is room to transmit.
pub fn has_room(status: u64) -> (r: bool)
    ensures
        r == tx_ready(status),
{
    status / 32 % 2 == 1
}

/// Whether a wait of `ms` milliseconds that began at tick `start` goes on at tick `now`.
pub fn sleep_ms(ms: u64, start: u64, now: u64) -> (on: bool)
    requires
        deadline(start, ms) <= u64::MAX,
    ensures
        on == (now < deadline(start, ms)),
{
    waits(ms, start, now)
}

/// The port registers (output enable, output value) that drive the enable line of the modem.
pub fn set_en(output_en: u32, output_val: u32, high: bool) -> (r: (u32, u32))
    ensures
        r.0 == with_level(output_en, EN_CH, true),
        r.1 == with_level(output_val, EN_CH, high),
{
    (gpo(output_en, EN_CH, true), gpo(output_val, EN_CH, high))
}

/// A step of a power cycle.
#[derive(Clone, Copy, Debug, PartialEq, Eq, Structural)]
pub enum Power {
    /// Drive the enable line.
    Enable(bool),
    /// Wait for so many milliseconds.
    Sleep(u64),
}

/// Power-cycle the modem through its enable line so that it boots its firmware.
pub fn reset_esp() -> (steps: [Power; 4])
    ensures
        steps@ == seq![Power::Enable(false), Power::Sleep(40), Power::Enable(true), Power::Sleep(50)],
{
    let steps = [Power::Enable(false), Power::Sleep(40), Power::Enable(true), Power::Sleep(50)];
    assert(steps@ =~= seq![
        Power::Enable(false),
        Power::Sleep(40),
        Power::Enable(true),
        Power::Sleep(50),
    ]);
    steps
}

/// A step of the set-up of the UART.
#[derive(Clone, Copy, Debug, PartialEq, Eq, Structural)]
pub enum Setup {
    /// Enable the clock of the UART.
    ClockOn,
    /// Put the UART into or out of reset.
    Reset(bool),
    /// Idle for so many cycles.
    Nops(u32),
    /// Switch on the input buffer and the Schmitt trigger of a pad.
    PadInput(usize),
    /// Write the interrupt enable register, or the high divisor latch while the latches are open.
    DlhIer(u32),
    /// Write the line control register.
    Lcr(u32),
    /// Write the low divisor latch, which must be open.
    Dll(u32),
    /// Write the fractional divisor.
    Dlf(u32),
    /// Write the FIFO control register.
    Fcr(u32),
    /// Read the line status once, to clear what errors it holds.
    ClearStatus,
    /// Read the receive register for as long as the line status says that a byte was received.
    DrainStale,
}

/// The divisor for a baud rate, in sixteenths.
pub open spec fn divisor(baud: u32) -> u32 {
    APB0 / baud
}

/// The steps that set up the UART for a baud rate: eight data bits, one stop bit, no parity, no
/// interrupts, empty FIFOs. The divisor is written while its latches are open.
pub open spec fn init_steps(baud: u32) -> Seq<Setup> {
    seq![
        Setup::ClockOn,
        Setup::Reset(true),
        Setup::Nops(2000),
        Setup::Reset(false),
        Setup::PadInput(6),
        Setup::DlhIer(0),
        Setup::Lcr(0x80),
        Setup::DlhIer(divisor(baud) / 4096 % 256),
        Setup::Dll(divisor(baud) / 16 % 256),
        Setup::Dlf(divisor(baud) % 16),
        Setup::Lcr(0x03),
        Setup::Fcr(0x07),
        Setup::Fcr(0x01),
        Setup::ClearStatus,
        Setup::DrainStale,
    ]
}

/// Set up the UART for a baud rate.
pub fn init(baud: u32) -> (steps: [Setup; 15])
    requires
        baud > 0,
    ensures
        steps@ == init_steps(baud),
{
    let divisor: u32 = APB0 / baud;
    let steps = [
        Setup::ClockOn,
        Setup::Reset(true),
        Setup::Nops(2000),
        Setup::Reset(false),
        Setup::PadInput(6),
        Setup::DlhIer(0),
        Setup::Lcr(0x80),
        Setup::DlhIer(divisor / 4096 % 256),
        Setup::Dll(divisor / 16 % 256),
        Setup::Dlf(divisor % 16),
        Setup::Lcr(0x03),
        Setup::Fcr(0x07),
        Setup::Fcr(0x01),
        Setup::ClearStatus,
        Setup::DrainStale,
    ];
    assert(steps@ =~= init_steps(baud));
    steps
}

/// The latches hold the whole divisor of every rate of at least 186 baud, and the rate that it
/// gives is the one asked for or the next above that a sixteenth of the divisor can reach.
pub proof fn law_divisor(baud: u32)
    requires
        186 <= baud,
    ensures
        init_steps(baud)[7]->DlhIer_0 * 4096 + init_steps(baud)[8]->Dll_0 * 16
            + init_steps(baud)[9]->Dlf_0 == divisor(baud),
        divisor(baud) * baud <= APB0 < (divisor(baud) + 1) * baud,
{
    let d = divisor(baud);
    assert(d < 0x10_0000 && d * baud <= 195_000_000 < (d + 1) * baud) by (nonlinear_arith)
        requires
            186 <= baud,
            d == 195_000_000u32 / baud,
    ;
}

/// `s` ends with `t`.
pub open spec fn ends_with(s: Seq<u8>, t: Seq<u8>) -> bool {
    t.len() <= s.len() && s.skip(s.len() - t.len()) == t
}

/// A search for the marker in what is received.
pub struct Scan {
    end: u64,
    matched: usize,
    ask: Wire,
    found: bool,
    seen: Ghost<Seq<u8>>,
}

impl Scan {
    /// The tick at which the search is given up.
    pub closed spec fn end(self) -> u64 {
        self.end
    }

    /// What the search waits for.
    pub closed spec fn ask(self) -> Wire {
        self.ask
    }

    /// The marker was received.
    pub closed spec fn found(self) -> bool {
        self.found
    }

    /// What was received so far.
    pub closed spec fn seen(self) -> Seq<u8> {
        self.seen@
    }

    /// The search holds the longest beginning of the marker that ends what was received, and the
    /// marker was not received before.
    pub closed spec fn wf(self) -> bool {
        &&& self.found ==> ends_with(self.seen@, MARKER@) && self.ask == Wire::Done
        &&& !self.found ==> {
            &&& self.matched < 6
            &&& ends_with(self.seen@, MARKER@.take(self.matched as int))
            &&& forall|k: int|
                self.matched < k <= 6 ==> !ends_with(self.seen@, #[trigger] MARKER@.take(k))
            &&& !occurs(self.seen@, MARKER@)
        }
    }

    /// A search that begins at tick `now` and is given up after `timeout_ms` milliseconds. It first
    /// asks for the time.
    pub fn new(now: u64, timeout_ms: u64) -> (s: Scan)
        requires
            deadline(now, timeout_ms) <= u64::MAX,
        ensures
            s.wf(),
            s.end() == deadline(now, timeout_ms),
            s.ask() == Wire::ReadTime,
            !s.found(),
            s.seen() == Seq::<u8>::empty(),
    {
        let ghost none = Seq::<u8>::empty();
        assert(MARKER@.take(0) =~= none.skip(0));
        assert forall|k: int| 0 < k <= 6 implies !ends_with(none, #[trigger] MARKER@.take(k)) by {
            assert(MARKER@.take(k).len() == k);
        }
        Scan {
            end: end_of(now, timeout_ms),
            matched: 0,
            ask: Wire::ReadTime,
            found: false,
            seen: Ghost(none),
        }
    }

    /// Whether the marker was received.
    pub fn is_found(&self) -> (found: bool)
        ensures
            found == self.found(),
    {
        self.found
    }
}

proof fn lemma_marker()
    ensures
        MARKER@.len() == 6,
        MARKER@[0] == 0xAA,
        forall|j: int| 0 < j < 6 ==> #[trigger] MARKER@[j] != 0xAA,
{
}

/// What ends with a string ends, one byte earlier, with all but its last byte.
proof fn lemma_ends_with_push(s: Seq<u8>, b: u8, t: Seq<u8>)
    requires
        t.len() > 0,
    ensures
        ends_with(s.push(b), t) <==> ends_with(s, t.drop_last()) && t.last() == b,
{
    let u = s.push(b);
    let n = t.len() as int;
    if ends_with(u, t) {
        assert(u.skip(u.len() - n)[n - 1] == b);
        assert(s.skip(s.len() - (n - 1)) =~= t.drop_last()) by {
            assert forall|k: int| 0 <= k < n - 1 implies s.skip(s.len() - (n - 1))[k] == t[k] by {
                assert(u.skip(u.len() - n)[k] == t[k]);
            }
        }
    }
    if ends_with(s, t.drop_last()) && t.last() == b {
        assert(u.skip(u.len() - n) =~= t) by {
            assert forall|k: int| 0 <= k < n implies u.skip(u.len() - n)[k] == t[k] by {
                if k < n - 1 {
                    assert(s.skip(s.len() - (n - 1))[k] == t.drop_last()[k]);
                }
            }
        }
    }
}

/// A string first contained after a push ends there.
proof fn lemma_occurs_push(s: Seq<u8>, b: u8, t: Seq<u8>)
    requires
        t.len() > 0,
    ensures
        occurs(s.push(b), t) <==> occurs(s, t) || ends_with(s.push(b), t),
{
    let u = s.push(b);
    if occurs(u, t) {
        let i = choose|i: int| crate::query::occurs_at(u, i, t);
        if i + t.len() == u.len() {
            assert(u.skip(i) =~= u.subrange(i, i + t.len()));
        } else {
            assert(s.subrange(i, i + t.len()) =~= u.subrange(i, i + t.len()));
            assert(crate::query::occurs_at(s, i, t));
        }
    }
    if occurs(s, t) {
        let i = choose|i: int| crate::query::occurs_at(s, i, t);
        assert(s.subrange(i, i + t.len()) =~= u.subrange(i, i + t.len()));
        assert(crate::query::occurs_at(u, i, t));
    }
    if ends_with(u, t) {
        let i = u.len() - t.len();
        assert(u.skip(i) =~= u.subrange(i, i + t.len()));
        assert(crate::query::occurs_at(u, i, t));
    }
}

/// The longest beginning of the marker after one more byte.
proof fn lemma_scan_step(seen: Seq<u8>, m: int, b: u8)
    requires
        0 <= m < 6,
        ends_with(seen, MARKER@.take(m)),
        forall|k: int| m < k <= 6 ==> !ends_with(seen, #[trigger] MARKER@.take(k)),
    ensures
        ({
            let n = if b == MARKER@[m] {
                m + 1
            } else if b == MARKER@[0] {
                1
            } else {
                0
            };
            &&& ends_with(seen.push(b), MARKER@.take(n))
            &&& forall|k: int|
                n < k <= 6 ==> !ends_with(seen.push(b), #[trigger] MARKER@.take(k))
        }),
{
    lemma_marker();
    let u = seen.push(b);
    let n = if b == MARKER@[m] {
        m + 1
    } else if b == MARKER@[0] {
        1
    } else {
        0
    };
    assert forall|k: int| 1 <= k <= 6 implies (#[trigger] ends_with(u, MARKER@.take(k)) <==> (
    ends_with(seen, MARKER@.take(k - 1)) && MARKER@[k - 1] == b)) by {
        lemma_ends_with_push(seen, b, MARKER@.take(k));
        assert(MARKER@.take(k).drop_last() =~= MARKER@.take(k - 1));
    }
    assert(ends_with(seen, MARKER@.take(0))) by {
        assert(seen.skip(seen.len() as int) =~= MARKER@.take(0));
    }
    assert(ends_with(u, MARKER@.take(0))) by {
        assert(u.skip(u.len() as int) =~= MARKER@.take(0));
    }
    if n > 0 {
        assert(ends_with(u, MARKER@.take(n)));
    }
    assert forall|k: int| n < k <= 6 implies !ends_with(u, #[trigger] MARKER@.take(k)) by {
        if ends_with(u, MARKER@.take(k)) {
            assert(ends_with(seen, MARKER@.take(k - 1)));
            assert(k - 1 <= m);
            if k - 1 > 0 && k - 1 < m {
                // The marker would begin again within its own beginning.
                let a = MARKER@.take(m);
                let c = MARKER@.take(k - 1);
                assert(seen.skip(seen.len() - m)[m - (k - 1)] == a[m - (k - 1)]);
                assert(seen.skip(seen.len() - (k - 1))[0] == c[0]);
                assert(MARKER@[m - (k - 1)] == MARKER@[0]);
            }
        }
    }
}

/// One step of the search for the marker. `answer` is what `ask()` gave: the time, the line status
/// or the data. Returns what to do next; on `Done` the search is over.
pub fn wait_marker(scan: &mut Scan, answer: u64) -> (next: Wire)
    requires
        old(scan).wf(),
        old(scan).ask() != Wire::Done,
    ensures
        final(scan).wf(),
        final(scan).ask() == next,
        final(scan).end() == old(scan).end(),
        match old(scan).ask() {
            Wire::ReadTime => {
                &&& next == if answer < old(scan).end() {
                    Wire::ReadStatus
                } else {
                    Wire::Done
                }
                &&& final(scan).seen() == old(scan).seen()
                &&& final(scan).found() == old(scan).found()
            },
            Wire::ReadStatus => {
                &&& next == if rx_ready(answer) {
                    Wire::ReadData
                } else {
                    Wire::ReadTime
                }
                &&& final(scan).seen() == old(scan).seen()
                &&& final(scan).found() == old(scan).found()
            },
            _ => {
                &&& final(scan).seen() == old(scan).seen().push(received(answer))
                &&& final(scan).found() == ends_with(final(scan).seen(), MARKER@)
                &&& next == if final(scan).found() {
                    Wire::Done
                } else {
                    Wire::ReadTime
                }
            },
        },
{
    let next = match scan.ask {
        Wire::ReadTime => if answer < scan.end {
            Wire::ReadStatus
        } else {
            Wire::Done
        },
        Wire::ReadStatus => if has_byte(answer) {
            Wire::ReadData
        } else {
            Wire::ReadTime
        },
        _ => {
            let b: u8 = (answer % 256) as u8;
            proof {
                lemma_marker();
                lemma_scan_step(scan.seen@, scan.matched as int, b);
                lemma_occurs_push(scan.seen@, b, MARKER@);
                assert(MARKER@.take(6) =~= MARKER@);
            }
            scan.seen = Ghost(scan.seen@.push(b));
            if b == MARKER[scan.matched] {
                scan.matched = scan.matched + 1;
                if scan.matched == 6 {
                    scan.found = true;
                }
            } else {
                scan.matched = if b == MARKER[0] {
                    1
                } else {
                    0
                };
            }
            if scan.found {
                Wire::Done
            } else {
                Wire::ReadTime
            }
        },
    };
    scan.ask = next;
    next
}

/// The search succeeds exactly when the marker stands in what was received, whatever came before
/// it.
pub proof fn law_marker_found(scan: Scan)
    requires
        scan.wf(),
    ensures
        scan.found() <==> occurs(scan.seen(), MARKER@),
{
    if scan.found() {
        let s = scan.seen();
        let i = s.len() - 6;
        assert(s.subrange(i, i + 6) =~= s.skip(i));
        assert(crate::query::occurs_at(s, i, MARKER@));
    }
}

/// An operation that drops what is received for some time.
pub struct Drain {
    end: u64,
    ask: Wire,
}

impl Drain {
    /// The tick at which the operation ends.
    pub closed spec fn end(self) -> u64 {
        self.end
    }

    /// What the operation waits for.
    pub closed spec fn ask(self) -> Wire {
        self.ask
    }

    /// Drop what is received within `ms` milliseconds from tick `now` on. The operation first asks
    /// for the time.
    pub fn new(now: u64, ms: u64) -> (d: Drain)
        requires
            deadline(now, ms) <= u64::MAX,
        ensures
            d.end() == deadline(now, ms),
            d.ask() == Wire::ReadTime,
    {
        Drain { end: end_of(now, ms), ask: Wire::ReadTime }
    }
}

/// One step of dropping what is received, such as the noise of a boot.
pub fn drain(d: &mut Drain, answer: u64) -> (next: Wire)
    ensures
        final(d).end() == old(d).end(),
        final(d).ask() == next,
        next == match old(d).ask() {
            Wire::ReadTime => if answer < old(d).end() {
                Wire::ReadStatus
            } else {
                Wire::Done
            },
            Wire::ReadStatus => if rx_ready(answer) {
                Wire::ReadData
            } else {
                Wire::ReadTime
            },
            Wire::ReadData => Wire::ReadTime,
            _ => Wire::Done,
        },
{
    let next = match d.ask {
        Wire::ReadTime => if answer < d.end {
            Wire::ReadStatus
        } else {
            Wire::Done
        },
        Wire::ReadStatus => if has_byte(answer) {
            Wire::ReadData
        } else {
            Wire::ReadTime
        },
        Wire::ReadData => Wire::ReadTime,
        _ => Wire::Done,
    };
    d.ask = next;
    next
}

/// An operation that waits for one byte.
pub struct Receive {
    end: u64,
    ask: Wire,
    byte: Option<u8>,
}

impl Receive {
    /// The last tick at which the operation waits.
    pub closed spec fn end(self) -> u64 {
        self.end
    }

    /// What the operation waits for.
    pub closed spec fn ask(self) -> Wire {
        self.ask
    }

    /// The byte that was received.
    pub closed spec fn byte(self) -> Option<u8> {
        self.byte
    }

    /// Wait up to `timeout_ms` milliseconds from tick `now` on. The operation first asks for the
    /// line status.
    pub fn new(now: u64, timeout_ms: u64) -> (r: Receive)
        requires
            deadline(now, timeout_ms) <= u64::MAX,
        ensures
            r.end() == deadline(now, timeout_ms),
            r.ask() == Wire::ReadStatus,
            r.byte() == None::<u8>,
    {
        Receive { end: end_of(now, timeout_ms), ask: Wire::ReadStatus, byte: None }
    }

    /// The byte that was received, or `None` if the time ran out.
    pub fn result(&self) -> (b: Option<u8>)
        ensures
            b == self.byte(),
    {
        self.byte
    }
}

/// One step of waiting for a byte. A byte that is there is taken whatever the time.
pub fn rx_byte(r: &mut Receive, answer: u64) -> (next: Wire)
    ensures
        final(r).end() == old(r).end(),
        final(r).ask() == next,
        next == match old(r).ask() {
            Wire::ReadStatus => if rx_ready(answer) {
                Wire::ReadData
            } else {
                Wire::ReadTime
            },
            Wire::ReadTime => if answer > old(r).end() {
                Wire::Done
            } else {
                Wire::ReadStatus
            },
            _ => Wire::Done,
        },
        final(r).byte() == if old(r).ask() == Wire::ReadData {
            Some(received(answer))
        } else {
            old(r).byte()
        },
{
    let next = match r.ask {
        Wire::ReadStatus => if has_byte(answer) {
            Wire::ReadData
        } else {
            Wire::ReadTime
        },
        Wire::ReadTime => if answer > r.end {
            Wire::Done
        } else {
            Wire::ReadStatus
        },
        Wire::ReadData => {
            r.byte = Some((answer % 256) as u8);
            Wire::Done
        },
        _ => Wire::Done,
    };
    r.ask = next;
    next
}

/// An operation that transmits a string.
pub struct Transmit {
    sent: usize,
    ask: Wire,
}

impl Transmit {
    /// Bytes that were transmitted.
    pub closed spec fn sent(self) -> int {
        self.sent as int
    }

    /// What the operation waits for.
    pub closed spec fn ask(self) -> Wire {
        self.ask
    }

    /// What holds of the operation on the string `data`.
    pub closed spec fn wf(self, data: Seq<u8>) -> bool {
        &&& self.sent <= data.len()
        &&& self.ask == Wire::Done <==> self.sent == data.len()
        &&& self.ask != Wire::Done && self.ask != Wire::ReadStatus ==> self.ask == Wire::WriteData(
            data[self.sent as int],
        )
    }

    /// Begin to transmit `data`.
    pub fn new(data: &[u8]) -> (t: Transmit)
        ensures
            t.wf(data@),
            t.sent() == 0,
            t.ask() == if data@.len() == 0 {
                Wire::Done
            } else {
                Wire::ReadStatus
            },
    {
        Transmit {
            sent: 0,
            ask: if data.len() == 0 {
                Wire::Done
            } else {
                Wire::ReadStatus
            },
        }
    }

    /// What to do first.
    pub fn first(&self) -> (w: Wire)
        ensures
            w == self.ask(),
    {
        self.ask
    }
}

/// One step of transmitting `data`: each byte waits for room, and then is written.
pub fn write(t: &mut Transmit, data: &[u8], answer: u64) -> (next: Wire)
    requires
        old(t).wf(data@),
        old(t).ask() != Wire::Done,
    ensures
        final(t).wf(data@),
        final(t).ask() == next,
        match old(t).ask() {
            Wire::ReadStatus => {
                &&& next == if tx_ready(answer) {
                    Wire::WriteData(data@[old(t).sent()])
                } else {
                    Wire::ReadStatus
                }
                &&& final(t).sent() == old(t).sent()
            },
            _ => {
                &&& final(t).sent() == old(t).sent() + 1
                &&& next == if final(t).sent() == data@.len() {
                    Wire::Done
                } else {
                    Wire::ReadStatus
                }
            },
        },
{
    let n: usize = data.len();
    let next = match t.ask {
        Wire::ReadStatus => if has_room(answer) {
            Wire::WriteData(data[t.sent])
        } else {
            Wire::ReadStatus
        },
        _ => {
            t.sent = t.sent + 1;
            if t.sent == n {
                Wire::Done
            } else {
                Wire::ReadStatus
            }
        },
    };
    t.ask = next;
    next
}

/// What is written is the string, byte by byte and in order, and the operation is over when all of
/// it was written.
pub proof fn law_write_order(t: Transmit, data: Seq<u8>)
    requires
        t.wf(data),
    ensures
        0 <= t.sent() <= data.len(),
        t.ask() == Wire::Done <==> t.sent() == data.len(),
        t.ask() matches Wire::WriteData(b) ==> b == data[t.sent()],
{
}

/// How far a buffer is filled.
#[derive(Clone, Copy, Debug, PartialEq, Eq, Structural)]
pub enum Fill {
    /// Receive a byte.
    More,
    /// The buffer is full.
    Full,
    /// A byte did not come in time.
    TimedOut,
}

/// A buffer being filled with received bytes.
pub struct Filling {
    filled: usize,
    fill: Fill,
    came: Ghost<Seq<u8>>,
    base: Ghost<Seq<u8>>,
}

impl Filling {
    /// The bytes that came, in order.
    pub closed spec fn came(self) -> Seq<u8> {
        self.came@
    }

    /// What the buffer held at first.
    pub closed spec fn base(self) -> Seq<u8> {
        self.base@
    }

    /// What is to be done, or the outcome.
    pub closed spec fn fill(self) -> Fill {
        self.fill
    }

    /// The buffer holds what came, and behind it what it held at first. It is full once as many
    /// bytes came as it has room for, and no byte is taken after that.
    pub closed spec fn wf(self, buf: Seq<u8>) -> bool {
        &&& buf == splice(self.base@, 0, self.came@)
        &&& self.filled == self.came@.len()
        &&& self.came@.len() <= self.base@.len() == buf.len()
        &&& self.fill == Fill::Full <==> self.came@.len() == buf.len()
    }

    /// Fill a buffer. One of no bytes is full at once.
    pub fn new(buf: &[u8]) -> (f: Filling)
        ensures
            f.wf(buf@),
            f.base() == buf@,
            f.came() == Seq::<u8>::empty(),
            f.fill() == if buf@.len() == 0 {
                Fill::Full
            } else {
                Fill::More
            },
    {
        assert(splice(buf@, 0, Seq::empty()) =~= buf@);
        Filling {
            filled: 0,
            fill: if buf.len() == 0 {
                Fill::Full
            } else {
                Fill::More
            },
            came: Ghost(Seq::empty()),
            base: Ghost(buf@),
        }
    }

    /// What is to be done, or the outcome.
    pub fn state(&self) -> (fill: Fill)
        ensures
            fill == self.fill(),
    {
        self.fill
    }
}

/// Fill a buffer: take a byte, or `None` if it did not come in time.
pub fn read_exact(f: &mut Filling, buf: &mut [u8], got: Option<u8>) -> (fill: Fill)
    requires
        old(f).wf(old(buf)@),
        old(f).fill() == Fill::More,
    ensures
        final(f).wf(final(buf)@),
        final(f).base() == old(f).base(),
        final(f).fill() == fill,
        match got {
            Some(b) => {
                &&& final(f).came() == old(f).came().push(b)
                &&& fill == if final(f).came().len() == final(buf)@.len() {
                    Fill::Full
                } else {
                    Fill::More
                }
            },
            None => final(f).came() == old(f).came() && fill == Fill::TimedOut,
        },
        final(buf)@ == splice(final(f).base(), 0, final(f).came()),
{
    let n: usize = buf.len();
    let fill = match got {
        Some(b) => {
            let ghost came = f.came@;
            buf[f.filled] = b;
            f.filled = f.filled + 1;
            f.came = Ghost(came.push(b));
            assert(buf@ =~= splice(f.base@, 0, f.came@));
            if f.filled == n {
                Fill::Full
            } else {
                Fill::More
            }
        },
        None => Fill::TimedOut,
    };
    f.fill = fill;
    fill
}

/// A buffer is full exactly when at least as many bytes came as it has room for. It takes no byte
/// beyond those, so what follows them stays with the link. Behind what came it is unchanged.
pub proof fn law_read_exact(f: Filling, buf: Seq<u8>)
    requires
        f.wf(buf),
    ensures
        f.fill() == Fill::Full <==> f.came().len() >= buf.len(),
        f.came().len() <= buf.len(),
        buf.take(f.came().len() as int) == f.came(),
        buf.skip(f.came().len() as int) == f.base().skip(f.came().len() as int),
        f.base().len() == buf.len(),
{
    let k = f.came().len() as int;
    assert(buf.take(k) =~= f.came());
    assert(buf.skip(k) =~= f.base().skip(k));
}

/// A step of bringing up the modem.
#[derive(Clone, Copy, Debug, PartialEq, Eq, Structural)]
pub enum Bring {
    /// Power-cycle the modem.
    Reset,
    /// Search for the marker, for so many milliseconds.
    WaitMarker(u64),
    /// Drop what is received, for so many milliseconds.
    Drain(u64),
    /// The modem is up, or could not be brought up.
    Done(bool),
}

/// Bringing up the modem: up to six power cycles, until one is followed by the marker.
pub struct BringUp {
    tries: usize,
    doing: Bring,
}

impl BringUp {
    /// Power cycles after which the marker did not come.
    pub closed spec fn failed(self) -> int {
        self.tries as int
    }

    /// What is being done.
    pub closed spec fn doing(self) -> Bring {
        self.doing
    }

    /// Six failures, and no fewer, end the attempt in vain.
    pub closed spec fn wf(self) -> bool {
        &&& self.tries <= 6
        &&& self.doing == Bring::Done(false) <==> self.tries == 6
    }

    /// Begin with a power cycle.
    pub fn new() -> (b: BringUp)
        ensures
            b.wf(),
            b.failed() == 0,
            b.doing() == Bring::Reset,
    {
        BringUp { tries: 0, doing: Bring::Reset }
    }
}

/// The next step once the one being done is over; `seen` says whether the search that is over found
/// the marker. The marker is followed by a line end, which is dropped so that the first command
/// meets an idle line.
pub fn bringup(b: &mut BringUp, seen: bool) -> (next: Bring)
    requires
        old(b).wf(),
    ensures
        final(b).wf(),
        final(b).doing() == next,
        final(b).failed() == old(b).failed() + if old(b).doing() is WaitMarker && !seen {
            1int
        } else {
            0
        },
        next == match old(b).doing() {
            Bring::Reset => Bring::WaitMarker(2500),
            Bring::WaitMarker(_) => if seen {
                Bring::Drain(20)
            } else if final(b).failed() < 6 {
                Bring::Reset
            } else {
                Bring::Done(false)
            },
            Bring::Drain(_) => Bring::Done(true),
            Bring::Done(up) => Bring::Done(up),
        },
{
    let next = match b.doing {
        Bring::Reset => Bring::WaitMarker(2500),
        Bring::WaitMarker(_) => if seen {
            Bring::Drain(20)
        } else {
            b.tries = b.tries + 1;
            if b.tries < 6 {
                Bring::Reset
            } else {
                Bring::Done(false)
            }
        },
        Bring::Drain(_) => Bring::Done(true),
        Bring::Done(up) => Bring::Done(up),
    };
    b.doing = next;
    next
}

/// The modem counts as dead only after six power cycles that the marker did not follow.
pub proof fn law_six_attempts(b: BringUp)
    requires
        b.wf(),
    ensures
        b.doing() == Bring::Done(false) <==> b.failed() == 6,
        b.failed() <= 6,
{
}

/// A received byte shows in the lowest bit of the line status, room to transmit in bit 5; the byte is
/// the lowest one of its register.
pub proof fn law_status(status: u64)
    ensures
        rx_ready(status) <==> status & 1 != 0,
        tx_ready(status) <==> status & 0x20 != 0,
        received(status) == status & 0xFF,
{
    assert(status % 2 == status & 1) by (bit_vector);
    assert((status / 32 % 2 == 1) == (status & 0x20 != 0)) by (bit_vector);
    assert(status % 256 == status & 0xFF) by (bit_vector);
}

/// A string ends with another one exactly when its last bytes are those of the other one.
pub proof fn law_ends_with(s: Seq<u8>, t: Seq<u8>, front: Seq<u8>)
    ensures
        ends_with(front + t, t),
        ends_with(s, t) ==> s == s.take(s.len() - t.len()) + t,
        s.len() < t.len() ==> !ends_with(s, t),
{
    assert((front + t).skip((front + t).len() - t.len()) =~= t);
    if ends_with(s, t) {
        assert(s =~= s.take(s.len() - t.len()) + s.skip(s.len() - t.len()));
    }
}

/// What the modem sends once its firmware runs, and the commands that it takes.
pub proof fn law_modem()
    ensures
        MARKER@ == seq![0xAAu8, 0x55, 0x4D, 0x44, 0x4D, 0x31],
        (CMD_PING, CMD_CONNECT, CMD_LISTEN, CMD_ACCEPT) == (0x50u8, 0x43u8, 0x4Cu8, 0x41u8),
        (CMD_RECV, CMD_SEND, CMD_SEND565, CMD_CLOSE) == (0x52u8, 0x53u8, 0x42u8, 0x58u8),
{
    assert(MARKER@ =~= seq![0xAAu8, 0x55, 0x4D, 0x44, 0x4D, 0x31]);
}

} // verus!
