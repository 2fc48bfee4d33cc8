//! Real-time clock.
//!
//! Nothing here touches the clock. Each operation is a list of register accesses (`Op`), to be
//! performed in order. The clock counts its input; when the count reaches its initial count, a
//! second has passed. Date and time can be written in setting mode, and are live in running mode.

use vstd::prelude::*;

verus! {

/// The input of the clock: a 26 MHz crystal.
pub const RTC_CLOCK_HZ: u32 = 26_000_000;

/// A register access.
#[derive(Clone, Copy, Debug, PartialEq, Eq, Structural)]
pub enum Op {
    /// Put the clock into or out of reset.
    Reset(bool),
    /// Idle for so many cycles.
    Nops(u32),
    /// Enable the clock's clock.
    ClockOn,
    /// Enter setting mode, and unmask every register.
    Unmask,
    /// Setting mode: writable, not readable.
    Setting,
    /// Running mode: readable and live, not writable.
    Running,
    /// Set how many input ticks make a second.
    InitialCount(u32),
    /// Set the current count.
    CurrentCount(u32),
    /// Set the date.
    Date { year: u16, month: u8, day: u8, week: u8 },
    /// Set the time.
    Time { hour: u8, minute: u8, second: u8 },
}

/// The accesses that bring up the clock at one tick per second.
pub open spec fn init_ops() -> Seq<Op> {
    seq![
        Op::Reset(true),
        Op::Nops(10_000),
        Op::Reset(false),
        Op::ClockOn,
        Op::Unmask,
        Op::InitialCount(RTC_CLOCK_HZ),
        Op::CurrentCount(1),
    ]
}

/// The real-time clock.
#[derive(Clone, Copy, Debug, PartialEq, Eq, Structural)]
pub struct Rtc;

impl Rtc {
    /// The clock.
    pub fn new() -> (r: Rtc)
        ensures
            r == Rtc,
    {
        Rtc
    }

    /// Make date and time writable.
    pub fn set_setting(&self) -> (op: Op)
        ensures
            op == Op::Setting,
    {
        Op::Setting
    }

    /// Make date and time live.
    pub fn set_running(&self) -> (op: Op)
        ensures
            op == Op::Running,
    {
        Op::Running
    }

    /// Bring up the clock at one tick per second.
    pub fn init(&self) -> (ops: [Op; 7])
        ensures
            ops@ == init_ops(),
    {
        let ops = [
            Op::Reset(true),
            Op::Nops(10_000),
            Op::Reset(false),
            Op::ClockOn,
            Op::Unmask,
            Op::InitialCount(RTC_CLOCK_HZ),
            Op::CurrentCount(1),
        ];
        assert(ops@ =~= init_ops());
        ops
    }

    /// Set date and time.
    pub fn set_datetime(
        &self,
        year: u16,
        month: u8,
        day: u8,
        week: u8,
        hour: u8,
        minute: u8,
        second: u8,
    ) -> (ops: [Op; 4])
        ensures
            ops@ == seq![
                Op::Setting,
                Op::Date { year, month, day, week },
                Op::Time { hour, minute, second },
                Op::Running,
            ],
    {
        let ops = [
            self.set_setting(),
            Op::Date { year, month, day, week },
            Op::Time { hour, minute, second },
            self.set_running(),
        ];
        assert(ops@ =~= seq![
            Op::Setting,
            Op::Date { year, month, day, week },
            Op::Time { hour, minute, second },
            Op::Running,
        ]);
        ops
    }
}

/// The clock accepts writes after these accesses, if it did so before them or not.
pub open spec fn writable(ops: Seq<Op>, before: bool) -> bool
    decreases ops.len(),
{
    if ops.len() == 0 {
        before
    } else if ops.last() == Op::Setting || ops.last() == Op::Unmask {
        true
    } else if ops.last() == Op::Running {
        false
    } else {
        writable(ops.drop_last(), before)
    }
}

/// The access is lost unless the clock accepts writes.
pub open spec fn is_write(op: Op) -> bool {
    op is InitialCount || op is CurrentCount || op is Date || op is Time
}

/// No write is lost: every one of these accesses meets a clock that accepts it.
pub open spec fn no_write_lost(ops: Seq<Op>) -> bool {
    forall|i: int|
        0 <= i < ops.len() && is_write(#[trigger] ops[i]) ==> writable(ops.take(i), false)
}

/// Whatever mode the clock is in, neither bringing it up nor setting it loses a write; and once it
/// is set it runs.
pub proof fn law_writes_arrive(
    year: u16,
    month: u8,
    day: u8,
    week: u8,
    hour: u8,
    minute: u8,
    second: u8,
)
    ensures
        no_write_lost(init_ops()),
        ({
            let ops = seq![
                Op::Setting,
                Op::Date { year, month, day, week },
                Op::Time { hour, minute, second },
                Op::Running,
            ];
            no_write_lost(ops) && !writable(ops, true)
        }),
{
    reveal_with_fuel(writable, 4);
    let init = init_ops();
    assert(writable(init.take(5), false));
    assert(init.take(6).drop_last() =~= init.take(5));
    let ops = seq![
        Op::Setting,
        Op::Date { year, month, day, week },
        Op::Time { hour, minute, second },
        Op::Running,
    ];
    assert(writable(ops.take(1), false));
    assert(ops.take(2).drop_last() =~= ops.take(1));
}

/// The clock counts 26 million ticks of its input for a second, and is brought up with that.
pub proof fn law_one_second()
    ensures
        RTC_CLOCK_HZ == 26_000_000,
        init_ops().contains(Op::InitialCount(26_000_000)),
{
    assert(init_ops()[5] == Op::InitialCount(26_000_000));
}

} // verus!
