//! DMA controller: single-block transfers between memory and peripherals.
//!
//! Nothing here touches the controller. Each operation is a list of register accesses (`Op`), to be
//! performed in order.

use vstd::prelude::*;

verus! {

/// Distance from the cached view of the memory down to the uncached one. A transfer sees the memory
/// itself, so its buffers must be touched through the uncached view.
pub const UNCACHED_OFFSET: usize = 0x4000_0000;

/// Channels of the controller.
pub const CHANNELS: usize = 6;

/// Whether an address moves from item to item.
#[derive(Clone, Copy, Debug, PartialEq, Eq, Structural)]
pub enum AddressInc {
    Increment,
    NoChange,
}

/// Items of a burst.
#[derive(Clone, Copy, Debug, PartialEq, Eq, Structural)]
pub enum BurstLen {
    Length1,
    Length4,
    Length8,
    Length16,
    Length32,
    Length64,
    Length128,
    Length256,
    Length512,
    Length1024,
}

/// Bits of an item.
#[derive(Clone, Copy, Debug, PartialEq, Eq, Structural)]
pub enum TransWidth {
    Width8,
    Width16,
    Width32,
    Width64,
    Width128,
    Width256,
    Width512,
}

/// What a transfer connects. The DMA controller controls the flow.
#[derive(Clone, Copy, Debug, PartialEq, Eq, Structural)]
pub enum Flow {
    MemoryToMemory,
    MemoryToPeripheral,
    PeripheralToMemory,
    PeripheralToPeripheral,
}

/// How an end of a transfer asks for the next item.
#[derive(Clone, Copy, Debug, PartialEq, Eq, Structural)]
pub enum Handshake {
    Hardware,
    Software,
}

/// A register access.
#[derive(Clone, Copy, Debug, PartialEq, Eq, Structural)]
pub enum Op {
    /// Enable the clock of the controller.
    ClockOn,
    /// Reset the controller.
    Reset,
    /// Wait until the reset is over.
    WaitReset,
    /// Clear the common errors.
    ClearErrors,
    /// Enable or disable the controller and its interrupts.
    Enable(bool),
    /// Wait until the controller is disabled.
    WaitDisabled,
    /// Disable the first five channels at once.
    ChannelsOff,
    /// Route a request line to a channel.
    Select { channel: usize, select: u8 },
    /// Enable or disable a channel.
    Channel(usize, bool),
    /// Wait until a channel is not busy.
    WaitIdle(usize),
    /// Clear the interrupts of a channel.
    InterruptClear(usize),
    /// Configure a channel: one block, requests on the line of the same number.
    Configure { ch: usize, flow: Flow, src: Handshake, dst: Handshake, line: u8 },
    /// Set the source address of a channel.
    Source(usize, u64),
    /// Set the destination address of a channel.
    Destination(usize, u64),
    /// Control of a channel: source over the first master, destination over the second.
    Control {
        ch: usize,
        src_inc: AddressInc,
        dst_inc: AddressInc,
        width: TransWidth,
        burst: BurstLen,
    },
    /// Set the number of items of a channel, less one.
    BlockSize(usize, u32),
}

/// The address is memory, cached or not, or the FIFO of the AES unit, which counts as memory.
pub open spec fn in_memory(address: u64) -> bool {
    ||| 0x8000_0000 <= address < 0x8000_0000 + 6 * 1024 * 1024
    ||| 0x4000_0000 <= address < 0x4000_0000 + 8 * 1024 * 1024
    ||| address == 0x5045_0040
}

/// What a transfer between two addresses connects.
pub open spec fn flow_of(src: u64, dst: u64) -> Flow {
    match (in_memory(src), in_memory(dst)) {
        (false, false) => Flow::PeripheralToPeripheral,
        (true, false) => Flow::MemoryToPeripheral,
        (false, true) => Flow::PeripheralToMemory,
        (true, true) => Flow::MemoryToMemory,
    }
}

/// How an address asks for the next item: memory needs no hardware request.
pub open spec fn handshake_of(address: u64) -> Handshake {
    if in_memory(address) {
        Handshake::Software
    } else {
        Handshake::Hardware
    }
}

/// The number of the channel that a number stands for: beyond the last it stands for the last.
pub open spec fn channel_of(ch: usize) -> usize {
    if ch < CHANNELS {
        ch
    } else {
        (CHANNELS - 1) as usize
    }
}

/// Whether an address is memory (software handshake) or a peripheral (hardware handshake).
pub fn is_memory(address: u64) -> (r: bool)
    ensures
        r == in_memory(address),
{
    (address >= 0x8000_0000 && address < 0x8000_0000 + 6 * 1024 * 1024) || (address >= 0x4000_0000
        && address < 0x4000_0000 + 8 * 1024 * 1024) || address == 0x5045_0040
}

/// The uncached view of a cached address.
pub fn uncached(address: usize) -> (r: usize)
    requires
        address >= UNCACHED_OFFSET,
    ensures
        r == address - UNCACHED_OFFSET,
{
    address - UNCACHED_OFFSET
}

fn clamp_channel(ch: usize) -> (r: usize)
    ensures
        r == channel_of(ch),
{
    if ch < CHANNELS {
        ch
    } else {
        CHANNELS - 1
    }
}

/// The accesses that configure a channel for one block. The configuration comes before the
/// addresses and the size, as the controller demands.
pub open spec fn param_ops(
    ch: usize,
    src: u64,
    dst: u64,
    src_inc: AddressInc,
    dst_inc: AddressInc,
    burst: BurstLen,
    width: TransWidth,
    block_size: u32,
) -> Seq<Op> {
    seq![
        Op::Configure {
            ch,
            flow: flow_of(src, dst),
            src: handshake_of(src),
            dst: handshake_of(dst),
            line: ch as u8,
        },
        Op::Source(ch, src),
        Op::Destination(ch, dst),
        Op::Control { ch, src_inc, dst_inc, width, burst },
        Op::BlockSize(ch, (block_size - 1) as u32),
    ]
}

/// The accesses that bring up the controller.
pub open spec fn init_ops() -> Seq<Op> {
    seq![
        Op::ClockOn,
        Op::Reset,
        Op::WaitReset,
        Op::ClearErrors,
        Op::Enable(false),
        Op::WaitDisabled,
        Op::ChannelsOff,
        Op::Enable(true),
    ]
}

/// The accesses that wait for the transfer of a channel to be over.
pub open spec fn wait_ops(ch: usize) -> Seq<Op> {
    seq![Op::WaitIdle(ch), Op::InterruptClear(ch)]
}

/// The accesses that start a transfer of one block: the channel is stopped first, and enabled last.
pub open spec fn start_ops(
    ch: usize,
    src: u64,
    dst: u64,
    src_inc: AddressInc,
    dst_inc: AddressInc,
    burst: BurstLen,
    width: TransWidth,
    block_size: u32,
) -> Seq<Op> {
    seq![Op::InterruptClear(ch), Op::Channel(ch, false)] + wait_ops(ch) + param_ops(
        ch,
        src,
        dst,
        src_inc,
        dst_inc,
        burst,
        width,
        block_size,
    ) + seq![Op::Channel(ch, true)]
}

/// The DMA controller.
#[derive(Clone, Copy, Debug, PartialEq, Eq, Structural)]
pub struct Dmac;

impl Dmac {
    /// The controller, with what brings it up.
    pub fn new() -> (r: (Dmac, [Op; 8]))
        ensures
            r.1@ == init_ops(),
    {
        let d = Dmac;
        let ops = d.init();
        (d, ops)
    }

    /// Bring up the controller: reset, errors cleared, channels disabled, controller enabled.
    pub fn init(&self) -> (ops: [Op; 8])
        ensures
            ops@ == init_ops(),
    {
        let ops = [
            Op::ClockOn,
            Op::Reset,
            Op::WaitReset,
            Op::ClearErrors,
            Op::Enable(false),
            Op::WaitDisabled,
            Op::ChannelsOff,
            Op::Enable(true),
        ];
        assert(ops@ =~= init_ops());
        ops
    }

    /// Route a hardware-handshake request line to a channel.
    pub fn set_select_request(&self, channel: usize, select: u8) -> (op: Op)
        ensures
            op == (Op::Select { channel: channel_of(channel), select }),
    {
        Op::Select { channel: clamp_channel(channel), select }
    }

    /// Enable a channel.
    pub fn channel_enable(&self, ch: usize) -> (op: Op)
        ensures
            op == Op::Channel(channel_of(ch), true),
    {
        Op::Channel(clamp_channel(ch), true)
    }

    /// Disable a channel.
    pub fn channel_disable(&self, ch: usize) -> (op: Op)
        ensures
            op == Op::Channel(channel_of(ch), false),
    {
        Op::Channel(clamp_channel(ch), false)
    }

    /// Whether a channel is busy, from the enable bits of all channels. A channel's bit is cleared
    /// when its transfer is over.
    pub fn busy(&self, enabled: [bool; 6], ch: usize) -> (r: bool)
        ensures
            r == enabled@[channel_of(ch) as int],
    {
        enabled[clamp_channel(ch)]
    }

    /// Clear the interrupts of a channel.
    pub fn interrupt_clear(&self, ch: usize) -> (op: Op)
        requires
            ch < CHANNELS,
        ensures
            op == Op::InterruptClear(ch),
    {
        Op::InterruptClear(ch)
    }

    /// Configure a channel for one block of `block_size` items.
    pub fn set_channel_param(
        &self,
        ch: usize,
        src: u64,
        dst: u64,
        src_inc: AddressInc,
        dst_inc: AddressInc,
        burst: BurstLen,
        width: TransWidth,
        block_size: u32,
    ) -> (ops: [Op; 5])
        requires
            ch < CHANNELS,
            block_size > 0,
        ensures
            ops@ == param_ops(ch, src, dst, src_inc, dst_inc, burst, width, block_size),
    {
        let src_mem = is_memory(src);
        let dst_mem = is_memory(dst);
        let flow = match (src_mem, dst_mem) {
            (false, false) => Flow::PeripheralToPeripheral,
            (true, false) => Flow::MemoryToPeripheral,
            (false, true) => Flow::PeripheralToMemory,
            (true, true) => Flow::MemoryToMemory,
        };
        let ops = [
            Op::Configure {
                ch,
                flow,
                src: if src_mem {
                    Handshake::Software
                } else {
                    Handshake::Hardware
                },
                dst: if dst_mem {
                    Handshake::Software
                } else {
                    Handshake::Hardware
                },
                line: ch as u8,
            },
            Op::Source(ch, src),
            Op::Destination(ch, dst),
            Op::Control { ch, src_inc, dst_inc, width, burst },
            Op::BlockSize(ch, block_size - 1),
        ];
        assert(ops@ =~= param_ops(ch, src, dst, src_inc, dst_inc, burst, width, block_size));
        ops
    }

    /// Start a transfer of one block.
    pub fn start_single(
        &self,
        ch: usize,
        src: u64,
        dst: u64,
        src_inc: AddressInc,
        dst_inc: AddressInc,
        burst: BurstLen,
        width: TransWidth,
        block_size: u32,
    ) -> (ops: [Op; 10])
        requires
            ch < CHANNELS,
            block_size > 0,
        ensures
            ops@ == start_ops(ch, src, dst, src_inc, dst_inc, burst, width, block_size),
    {
        let wait = self.wait_done(ch);
        let params = self.set_channel_param(
            ch,
            src,
            dst,
            src_inc,
            dst_inc,
            burst,
            width,
            block_size,
        );
        let ops = [
            self.interrupt_clear(ch),
            self.channel_disable(ch),
            wait[0],
            wait[1],
            params[0],
            params[1],
            params[2],
            params[3],
            params[4],
            self.channel_enable(ch),
        ];
        assert(ops@ =~= start_ops(ch, src, dst, src_inc, dst_inc, burst, width, block_size));
        ops
    }

    /// Wait until the transfer of a channel is over.
    pub fn wait_done(&self, ch: usize) -> (ops: [Op; 2])
        requires
            ch < CHANNELS,
        ensures
            ops@ == wait_ops(ch),
    {
        let ops = [Op::WaitIdle(ch), Op::InterruptClear(ch)];
        assert(ops@ =~= wait_ops(ch));
        ops
    }
}

/// The access sets an address, the control or the size of a channel.
pub open spec fn is_parameter(op: Op) -> bool {
    op is Source || op is Destination || op is Control || op is BlockSize
}

/// A channel is started stopped, idle, and configured before anything else is set; it is enabled
/// once, at the end.
pub proof fn law_start_order(
    ch: usize,
    src: u64,
    dst: u64,
    src_inc: AddressInc,
    dst_inc: AddressInc,
    burst: BurstLen,
    width: TransWidth,
    block_size: u32,
)
    ensures
        ({
            let ops = start_ops(ch, src, dst, src_inc, dst_inc, burst, width, block_size);
            &&& forall|i: int, j: int|
                0 <= i < ops.len() && 0 <= j < ops.len() && (#[trigger] ops[i]) is Configure
                    && is_parameter(#[trigger] ops[j]) ==> i < j
            &&& forall|i: int, j: int|
                0 <= i < ops.len() && 0 <= j < ops.len() && (#[trigger] ops[i]) is WaitIdle && (
                #[trigger] ops[j]) is Configure ==> i < j
            &&& forall|i: int|
                0 <= i < ops.len() ==> (#[trigger] ops[i] == Op::Channel(ch, true) <==> i
                    == ops.len() - 1)
            &&& forall|i: int, j: int|
                0 <= i < ops.len() && 0 <= j < ops.len() && #[trigger] ops[i] == Op::Channel(
                    ch,
                    false,
                ) && (#[trigger] ops[j]) is WaitIdle ==> i < j
        }),
{
}

/// The cached memory and its uncached view are both memory.
pub proof fn law_views_are_memory(address: u64)
    requires
        0x8000_0000 <= address < 0x8000_0000 + 6 * 1024 * 1024,
    ensures
        in_memory(address),
        in_memory((address - UNCACHED_OFFSET) as u64),
{
}

/// An address is memory exactly within the 6 MiB from 80000000 on, the 8 MiB from 40000000 on, or at
/// the FIFO 50450040.
pub proof fn law_memory(address: u64)
    ensures
        in_memory(address) <==> {
            ||| 0x8000_0000 <= address <= 0x805F_FFFF
            ||| 0x4000_0000 <= address <= 0x407F_FFFF
            ||| address == 0x5045_0040
        },
{
}

/// Each end of a transfer is treated by its own address alone: memory by software, a peripheral by
/// its request line.
pub proof fn law_flow(src: u64, dst: u64)
    ensures
        flow_of(src, dst) is MemoryToMemory || flow_of(src, dst) is MemoryToPeripheral <==> in_memory(
            src,
        ),
        flow_of(src, dst) is MemoryToMemory || flow_of(src, dst) is PeripheralToMemory <==> in_memory(
            dst,
        ),
        handshake_of(src) is Software <==> in_memory(src),
{
}

/// A transfer is set up with the addresses, the increments, the width, the burst and the number of
/// items that were asked for, on the channel that was asked for.
pub proof fn law_start_parameters(
    ch: usize,
    src: u64,
    dst: u64,
    src_inc: AddressInc,
    dst_inc: AddressInc,
    burst: BurstLen,
    width: TransWidth,
    block_size: u32,
)
    requires
        ch < 6,
        block_size > 0,
    ensures
        ({
            let ops = start_ops(ch, src, dst, src_inc, dst_inc, burst, width, block_size);
            &&& ops.len() == 10
            &&& ops[0] == Op::InterruptClear(ch)
            &&& ops[1] == Op::Channel(ch, false)
            &&& ops[2] == Op::WaitIdle(ch)
            &&& ops[3] == Op::InterruptClear(ch)
            &&& ops[4] matches Op::Configure { ch: c, flow, src: s, dst: d, line }
            &&& c == ch && flow == flow_of(src, dst) && s == handshake_of(src) && d
                == handshake_of(dst) && line == ch
            &&& ops[5] == Op::Source(ch, src)
            &&& ops[6] == Op::Destination(ch, dst)
            &&& ops[7] == (Op::Control { ch, src_inc, dst_inc, width, burst })
            &&& ops[8] matches Op::BlockSize(c2, n) && c2 == ch && n + 1 == block_size
            &&& ops[9] == Op::Channel(ch, true)
        }),
{
}

/// A number below six is its own channel, and any other one is the last.
pub proof fn law_channel(ch: usize)
    ensures
        ch <= 5 ==> channel_of(ch) == ch,
        ch > 5 ==> channel_of(ch) == 5,
{
}

} // verus!
