//! Command protocol of the WiFi coprocessor over SPI.
//!
//! A command is `E0`, the command, the number of parameters, each parameter (its length in one byte,
//! and its bytes), `EE`; it is padded to a multiple of four bytes. A reply has the same form, with the
//! high bit of the command set. Command and reply go in separate frames of the chip select. The
//! coprocessor pulls its ready line low when it can be selected, and high once it was.

pub mod receive;
pub mod send;

use vstd::prelude::*;

use crate::clock::{deadline, end_of, waits};
use crate::gpio::{gpi, level};
use receive::{take, takes, Receiver, Took};
use send::{request_frame, views, Sender};

verus! {

/// Pin of the chip-enable line.
pub const EN: u32 = 0;

/// Pin of the chip select.
pub const CS: u32 = 1;

/// Pin of the ready line.
pub const RDY: u32 = 2;

/// First byte of a frame.
pub const START: u8 = 0xE0;

/// Last byte of a frame.
pub const END: u8 = 0xEE;

/// Set in the command of a reply.
pub const REPLY_FLAG: u8 = 0x80;

pub const CMD_GET_FW_VERSION: u8 = 0x37;

pub const CMD_START_SCAN_NETWORKS: u8 = 0x36;

pub const CMD_SCAN_NETWORKS: u8 = 0x27;

pub const CMD_GET_IDX_RSSI: u8 = 0x32;

pub const CMD_GET_IDX_ENCT: u8 = 0x33;

/// Whether a wait of `ms` milliseconds that began at tick `start` goes on at tick `now`.
pub fn sleep_ms(ms: u64, start: u64, now: u64) -> (on: bool)
    requires
        deadline(start, ms) <= u64::MAX,
    ensures
        on == (now < deadline(start, ms)),
{
    waits(ms, start, now)
}

/// The level of the ready line, from the input register of the port.
pub fn ready(input_val: u32) -> (high: bool)
    ensures
        high == level(input_val, RDY),
{
    gpi(input_val, RDY)
}

/// What a wait for the ready line wants.
#[derive(Clone, Copy, Debug, PartialEq, Eq, Structural)]
pub enum Look {
    /// Read the machine timer.
    ReadTime,
    /// Read the input register of the port.
    ReadPort,
    /// Nothing: the wait is over; the flag says whether the line has the level.
    Done(bool),
}

/// A wait for a level of the ready line.
pub struct WaitReady {
    want: bool,
    end: u64,
    late: bool,
    ask: Look,
}

impl WaitReady {
    /// The level.
    pub closed spec fn want(self) -> bool {
        self.want
    }

    /// The tick from which on the line is looked at once more.
    pub closed spec fn end(self) -> u64 {
        self.end
    }

    /// The time is over.
    pub closed spec fn late(self) -> bool {
        self.late
    }

    /// What the wait wants.
    pub closed spec fn ask(self) -> Look {
        self.ask
    }

    /// Wait for a level, up to `ms` milliseconds from tick `now` on. The wait first asks for the
    /// time.
    pub fn new(want: bool, now: u64, ms: u64) -> (w: WaitReady)
        requires
            deadline(now, ms) <= u64::MAX,
        ensures
            w.want() == want,
            w.end() == deadline(now, ms),
            !w.late(),
            w.ask() == Look::ReadTime,
    {
        WaitReady { want, end: end_of(now, ms), late: false, ask: Look::ReadTime }
    }
}

/// One step of a wait for the ready line. When the time is over the line is looked at once more.
pub fn wait_ready(w: &mut WaitReady, answer: u64) -> (next: Look)
    ensures
        final(w).want() == old(w).want(),
        final(w).end() == old(w).end(),
        final(w).ask() == next,
        match old(w).ask() {
            Look::ReadTime => {
                &&& next == Look::ReadPort
                &&& final(w).late() == (answer >= old(w).end())
            },
            Look::ReadPort => {
                &&& next == if level(answer as u32, RDY) == old(w).want() {
                    Look::Done(true)
                } else if old(w).late() {
                    Look::Done(false)
                } else {
                    Look::ReadTime
                }
                &&& final(w).late() == old(w).late()
            },
            Look::Done(has) => next == Look::Done(has) && *final(w) == *old(w),
        },
{
    let next = match w.ask {
        Look::ReadTime => {
            w.late = answer >= w.end;
            Look::ReadPort
        },
        Look::ReadPort => if ready(answer as u32) == w.want {
            Look::Done(true)
        } else if w.late {
            Look::Done(false)
        } else {
            Look::ReadTime
        },
        Look::Done(has) => Look::Done(has),
    };
    w.ask = next;
    next
}

/// A step of selecting the coprocessor.
#[derive(Clone, Copy, Debug, PartialEq, Eq, Structural)]
pub enum Select {
    /// Wait for a level of the ready line, for so many milliseconds at most.
    WaitReady(bool, u64),
    /// Drive the chip select.
    Cs(bool),
}

/// Begin a frame: select the coprocessor once it is ready, and wait until it noticed.
pub fn frame_begin() -> (steps: [Select; 3])
    ensures
        steps@ == seq![Select::WaitReady(false, 100), Select::Cs(false), Select::WaitReady(true, 10)],
{
    let steps = [Select::WaitReady(false, 100), Select::Cs(false), Select::WaitReady(true, 10)];
    assert(steps@ =~= seq![
        Select::WaitReady(false, 100),
        Select::Cs(false),
        Select::WaitReady(true, 10),
    ]);
    steps
}

/// End a frame.
pub fn frame_end() -> (step: Select)
    ensures
        step == Select::Cs(true),
{
    Select::Cs(true)
}

/// A step of the set-up of the SPI.
#[derive(Clone, Copy, Debug, PartialEq, Eq, Structural)]
pub enum SpiSetup {
    /// Enable the clock of the bus.
    BusClockOn,
    /// Enable the clock of the SPI.
    SpiClockOn,
    /// Write the enable register.
    Enable(u32),
    /// Mode 0, full duplex, standard frames of so many bits less one.
    Control(u8),
    /// Reset the control register of the enhanced frames.
    ResetEnhanced,
    Endian(u32),
    /// Divide the clock of the SPI by this.
    Baud(u32),
    TxThreshold(u32),
    RxThreshold(u32),
    InterruptMask(u32),
    Dma(u32),
    /// Select slaves. One must be selected for anything to be clocked.
    Slaves(u32),
}

/// The steps that set up the SPI. It is disabled meanwhile.
pub open spec fn spi_steps() -> Seq<SpiSetup> {
    seq![
        SpiSetup::BusClockOn,
        SpiSetup::SpiClockOn,
        SpiSetup::Enable(0),
        SpiSetup::Control(7),
        SpiSetup::ResetEnhanced,
        SpiSetup::Endian(0),
        SpiSetup::Baud(100),
        SpiSetup::TxThreshold(0),
        SpiSetup::RxThreshold(0),
        SpiSetup::InterruptMask(0),
        SpiSetup::Dma(0),
        SpiSetup::Slaves(1),
        SpiSetup::Enable(1),
    ]
}

/// Set up the SPI: mode 0, full duplex, eight bits.
pub fn spi_init() -> (steps: [SpiSetup; 13])
    ensures
        steps@ == spi_steps(),
{
    let steps = [
        SpiSetup::BusClockOn,
        SpiSetup::SpiClockOn,
        SpiSetup::Enable(0),
        SpiSetup::Control(7),
        SpiSetup::ResetEnhanced,
        SpiSetup::Endian(0),
        SpiSetup::Baud(100),
        SpiSetup::TxThreshold(0),
        SpiSetup::RxThreshold(0),
        SpiSetup::InterruptMask(0),
        SpiSetup::Dma(0),
        SpiSetup::Slaves(1),
        SpiSetup::Enable(1),
    ];
    assert(steps@ =~= spi_steps());
    steps
}

/// A step of bringing up the coprocessor.
#[derive(Clone, Copy, Debug, PartialEq, Eq, Structural)]
pub enum BootStep {
    /// Write the output enable register of the port.
    Outputs(u32),
    /// Write the input enable register of the port.
    Inputs(u32),
    /// Switch on the input buffer, the Schmitt trigger and the pull-up of a pad.
    PadInput(usize),
    /// Set up the SPI.
    Spi,
    /// Drive a pin.
    Pin(u32, bool),
    /// Idle for so many cycles.
    Nops(u32),
    /// Wait for so many milliseconds.
    Sleep(u64),
}

/// The steps that bring up the coprocessor: pins, SPI, and a reset with the chip deselected.
pub open spec fn boot_steps() -> Seq<BootStep> {
    seq![
        BootStep::Outputs(3),
        BootStep::Inputs(4),
        BootStep::PadInput(9),
        BootStep::Spi,
        BootStep::Pin(CS, true),
        BootStep::Pin(EN, false),
        BootStep::Nops(20_000_000),
        BootStep::Pin(EN, true),
        BootStep::Sleep(2000),
    ]
}

/// Bring up the coprocessor.
pub fn init() -> (steps: [BootStep; 9])
    ensures
        steps@ == boot_steps(),
{
    let steps = [
        BootStep::Outputs(3),
        BootStep::Inputs(4),
        BootStep::PadInput(9),
        BootStep::Spi,
        BootStep::Pin(CS, true),
        BootStep::Pin(EN, false),
        BootStep::Nops(20_000_000),
        BootStep::Pin(EN, true),
        BootStep::Sleep(2000),
    ];
    assert(steps@ =~= boot_steps());
    steps
}

/// The pins that are driven are the chip enable and the chip select; the one that is read is the
/// ready line.
pub proof fn law_boot_pins(ch: u32)
    requires
        ch < 32,
    ensures
        level(boot_steps()[0]->Outputs_0, ch) == (ch == EN || ch == CS),
        level(boot_steps()[1]->Inputs_0, ch) == (ch == RDY),
{
    assert(((3u32 >> ch) & 1 != 0) == (ch == 0 || ch == 1)) by (bit_vector)
        requires
            ch < 32,
    ;
    assert(((4u32 >> ch) & 1 != 0) == (ch == 2)) by (bit_vector)
        requires
            ch < 32,
    ;
}

/// What to do next on the bus.
#[derive(Clone, Copy, Debug, PartialEq, Eq, Structural)]
pub enum Bus {
    /// Begin a frame.
    Begin,
    /// Exchange a byte.
    Xfer(u8),
    /// End the frame.
    End,
    /// The exchange is over: the number of parameters of the reply, and whether it is valid.
    Done(usize, bool),
}

/// How far an exchange has come.
#[derive(Clone, Copy, Debug, PartialEq, Eq, Structural)]
pub enum Stage {
    /// Nothing was done.
    Start,
    /// The command is being sent.
    Sending,
    /// The frame of the command is over.
    Sent,
    /// The frame of the reply has begun.
    Begun,
    /// The reply is being received.
    Receiving,
    /// The frame of the reply is over.
    Over(usize, bool),
}

/// One exchange of a command for a reply.
pub struct Once {
    stage: Stage,
    sender: Sender,
    receiver: Receiver,
}

impl Once {
    /// How far the exchange has come.
    pub closed spec fn stage(self) -> Stage {
        self.stage
    }

    /// The command.
    pub closed spec fn sender(self) -> Sender {
        self.sender
    }

    /// The reply.
    pub closed spec fn receiver(self) -> Receiver {
        self.receiver
    }

    /// What holds of an exchange of this command, with these buffers.
    pub open spec fn wf(
        self,
        cmd: u8,
        params: Seq<Seq<u8>>,
        resp: Seq<u8>,
        lens: Seq<usize>,
    ) -> bool {
        &&& self.sender().wf(cmd, params)
        &&& self.stage() == Stage::Receiving ==> self.receiver().wf(resp, lens)
    }

    /// Begin an exchange.
    pub fn new(resp: &[u8], lens: &[usize]) -> (o: Once)
        ensures
            o.stage() == Stage::Start,
            o.sender().out() == Seq::<u8>::empty(),
            forall|cmd: u8, params: Seq<Seq<u8>>| #[trigger] o.wf(cmd, params, resp@, lens@),
    {
        Once { stage: Stage::Start, sender: Sender::new(), receiver: Receiver::new(resp, lens) }
    }
}

/// The next step of an exchange; `answer` is the byte that came back from the last transfer. The
/// command goes out in a frame of its own. Then the reply is clocked in with bytes `FF`, until it is
/// over or has not started in time.
pub fn request_once(
    o: &mut Once,
    cmd: u8,
    params: &[&[u8]],
    resp: &mut [u8],
    lens: &mut [usize],
    answer: u8,
) -> (next: Bus)
    requires
        old(o).wf(cmd, views(params@), old(resp)@, old(lens)@),
    ensures
        final(o).wf(cmd, views(params@), final(resp)@, final(lens)@),
        old(o).stage() != Stage::Receiving ==> final(resp)@ == old(resp)@ && final(lens)@ == old(
            lens,
        )@,
        match old(o).stage() {
            Stage::Start => {
                &&& next == Bus::Begin
                &&& final(o).stage() == Stage::Sending
                &&& final(o).sender() == old(o).sender()
            },
            Stage::Sending => {
                let out = old(o).sender().out();
                let frame = request_frame(cmd, views(params@));
                &&& out.is_prefix_of(frame)
                &&& if out.len() < frame.len() {
                    &&& next == Bus::Xfer(frame[out.len() as int])
                    &&& final(o).stage() == Stage::Sending
                    &&& final(o).sender().out() == out.push(frame[out.len() as int])
                } else {
                    &&& next == Bus::End
                    &&& final(o).stage() == Stage::Sent
                }
            },
            Stage::Sent => next == Bus::Begin && final(o).stage() == Stage::Begun,
            Stage::Begun => {
                &&& next == Bus::Xfer(0xFF)
                &&& final(o).stage() == Stage::Receiving
                &&& final(o).receiver().log() == Seq::<u8>::empty()
                &&& final(o).receiver().resp() == old(resp)@
                &&& final(o).receiver().lens() == old(lens)@
            },
            Stage::Receiving => exists|took: Took|
                {
                    &&& #[trigger] takes(
                        old(o).receiver(),
                        cmd,
                        answer,
                        final(o).receiver(),
                        final(resp)@,
                        final(lens)@,
                        took,
                    )
                    &&& match took {
                        Took::More => {
                            &&& next == Bus::Xfer(0xFF)
                            &&& final(o).stage() == Stage::Receiving
                        },
                        Took::Done(n, valid) => {
                            &&& next == Bus::End
                            &&& final(o).stage() == Stage::Over(n, valid)
                        },
                    }
                },
            Stage::Over(n, valid) => next == Bus::Done(n, valid) && *final(o) == *old(o),
        },
{
    match o.stage {
        Stage::Start => {
            o.stage = Stage::Sending;
            Bus::Begin
        },
        Stage::Sending => match o.sender.next(cmd, params) {
            Some(b) => Bus::Xfer(b),
            None => {
                o.stage = Stage::Sent;
                Bus::End
            },
        },
        Stage::Sent => {
            o.stage = Stage::Begun;
            Bus::Begin
        },
        Stage::Begun => {
            o.receiver = Receiver::new(resp, lens);
            o.stage = Stage::Receiving;
            Bus::Xfer(0xFF)
        },
        Stage::Receiving => {
            let ghost before = o.receiver();
            let took = take(&mut o.receiver, cmd, answer, resp, lens);
            match took {
                Took::More => {
                    assert(takes(before, cmd, answer, o.receiver(), resp@, lens@, took));
                    Bus::Xfer(0xFF)
                },
                Took::Done(n, valid) => {
                    o.stage = Stage::Over(n, valid);
                    assert(takes(before, cmd, answer, o.receiver(), resp@, lens@, took));
                    Bus::End
                },
            }
        },
        Stage::Over(n, valid) => Bus::Done(n, valid),
    }
}

/// Exchanges that are tried before a command is given up.
pub const ATTEMPTS: u32 = 8;

/// A step of a command.
#[derive(Clone, Copy, Debug, PartialEq, Eq, Structural)]
pub enum Attempt {
    /// Make one exchange.
    Once,
    /// Wait for so many milliseconds.
    Sleep(u64),
    /// The command is over: the number of parameters of the reply (0 on failure), and how many
    /// retries it took.
    Done(usize, u32),
}

/// A command that is tried until its reply is valid.
pub struct Request {
    failed: u32,
    doing: Attempt,
}

impl Request {
    /// Exchanges that failed.
    pub closed spec fn failed(self) -> int {
        self.failed as int
    }

    /// What is being done.
    pub closed spec fn doing(self) -> Attempt {
        self.doing
    }

    /// While an exchange is being made, fewer than all have failed.
    pub closed spec fn wf(self) -> bool {
        &&& self.failed <= ATTEMPTS
        &&& self.doing == Attempt::Once ==> self.failed < ATTEMPTS
    }

    /// Begin with an exchange.
    pub fn new() -> (r: Request)
        ensures
            r.wf(),
            r.failed() == 0,
            r.doing() == Attempt::Once,
    {
        Request { failed: 0, doing: Attempt::Once }
    }
}

/// The next step once the one being done is over; `n` and `valid` are what an exchange that is over
/// gave. A reply that is not valid is asked for again, 2 ms later, up to eight times in all.
pub fn request(r: &mut Request, n: usize, valid: bool) -> (next: Attempt)
    requires
        old(r).wf(),
    ensures
        final(r).wf(),
        final(r).doing() == next,
        final(r).failed() == old(r).failed() + if old(r).doing() == Attempt::Once && !valid {
            1int
        } else {
            0
        },
        next == match old(r).doing() {
            Attempt::Once => if valid {
                Attempt::Done(n, old(r).failed() as u32)
            } else {
                Attempt::Sleep(2)
            },
            Attempt::Sleep(_) => if old(r).failed() < ATTEMPTS {
                Attempt::Once
            } else {
                Attempt::Done(0, ATTEMPTS)
            },
            Attempt::Done(n, retries) => Attempt::Done(n, retries),
        },
{
    let next = match r.doing {
        Attempt::Once => if valid {
            Attempt::Done(n, r.failed)
        } else {
            r.failed = r.failed + 1;
            Attempt::Sleep(2)
        },
        Attempt::Sleep(_) => if r.failed < ATTEMPTS {
            Attempt::Once
        } else {
            Attempt::Done(0, ATTEMPTS)
        },
        Attempt::Done(n, retries) => Attempt::Done(n, retries),
    };
    r.doing = next;
    next
}

/// No command is tried more than eight times.
pub proof fn law_attempts(r: Request)
    requires
        r.wf(),
    ensures
        r.failed() <= 8,
        r.doing() == Attempt::Once ==> r.failed() < 8,
        ATTEMPTS == 8,
{
}

} // verus!
