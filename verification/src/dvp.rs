//! Digital video port: the camera's configuration bus (SCCB) and frame capture.
//!
//! Nothing here touches the port. Each operation is a list of register accesses (`Op`), to be
//! performed in order. The port itself writes captured frames to memory.

use vstd::prelude::*;

verus! {

/// Address of the OV2640 sensor on the configuration bus.
pub const OV2640_ADDR: u8 = 0x60;

/// Register that selects the bank of registers.
pub const BANK_SELECT: u8 = 0xff;

/// The bank of the sensor's registers.
pub const SENSOR_BANK: u8 = 0x01;

/// The registers that identify the sensor: high and low byte of the manufacturer, high and low byte
/// of the product.
pub const ID_REGISTERS: [u8; 4] = [0x1c, 0x1d, 0x0a, 0x0b];

/// What the sensor delivers.
#[derive(Clone, Copy, Debug, PartialEq, Eq, Structural)]
pub enum ImageFormat {
    Rgb,
    Yuv,
    Y,
}

/// A register access.
#[derive(Clone, Copy, Debug, PartialEq, Eq, Structural)]
pub enum Op {
    /// Enable the clock of the port.
    ClockOn,
    /// Put the port into or out of reset.
    Reset(bool),
    /// Idle for so many microseconds.
    Usleep(u32),
    /// Start the sensor's clock with this divider.
    Xclk(u8),
    /// Set the low and the high time of the configuration bus clock.
    SccbClock(u8, u8),
    /// Set the number of bytes of a transfer on the configuration bus.
    SccbBytes(u8),
    /// Set device, register and data of a transfer.
    SccbWrite { device: u8, register: u8, data: u8 },
    /// Set device and register of a transfer, and no data.
    SccbRegister { device: u8, register: u8 },
    /// Set the device of a transfer, and nothing else.
    SccbDevice(u8),
    /// Wait until no transfer is under way.
    WaitSccb,
    /// Start a transfer.
    SccbStart,
    /// Drive the sensor's power-down line.
    PowerDown(bool),
    /// Drive the sensor's reset line: false holds it in reset.
    SensorRun(bool),
    /// Set the format.
    Format(ImageFormat),
    /// Write bursts of four beats, or single beats.
    FourBeats(bool),
    /// Set the bursts of a line, and the lines of a frame.
    Size { bursts: u8, lines: u16 },
    /// Set where the red, green and blue planes go.
    PlaneAddresses(u32, u32, u32),
    /// Switch the planar output on or off.
    PlanarOutput(bool),
    /// Set where packed RGB565 goes.
    PackedAddress(u32),
    /// Switch the packed output on or off.
    PackedOutput(bool),
    /// Capture every frame, or only on demand.
    Auto(bool),
    /// Wait until a frame starts.
    WaitFrameStart,
    /// Acknowledge the start of a frame.
    AckFrameStart,
    /// Acknowledge start and end of a frame, and capture the one that has started.
    Capture,
    /// Wait until the frame is finished.
    WaitFrameFinish,
}

/// The accesses of one transfer on the configuration bus.
pub open spec fn transfer_ops() -> Seq<Op> {
    seq![Op::WaitSccb, Op::SccbStart, Op::WaitSccb]
}

/// The accesses that write a register of a device. Bit 0 of the address is set.
pub open spec fn send_ops(dev_addr: u8, reg_addr: u8, reg_data: u8) -> Seq<Op> {
    seq![
        Op::SccbBytes(3),
        Op::SccbWrite { device: dev_addr | 1, register: reg_addr, data: reg_data },
    ] + transfer_ops()
}

/// The accesses that read a register of a device: its number goes out in one transfer, and a second
/// one brings the data.
pub open spec fn receive_ops(dev_addr: u8, reg_addr: u8) -> Seq<Op> {
    seq![Op::SccbBytes(2), Op::SccbRegister { device: dev_addr | 1, register: reg_addr }]
        + transfer_ops() + seq![Op::SccbDevice(dev_addr)] + transfer_ops()
}

/// The accesses that power-cycle and reset the sensor.
pub open spec fn reset_ops() -> Seq<Op> {
    seq![
        Op::PowerDown(true),
        Op::Usleep(2000),
        Op::PowerDown(false),
        Op::Usleep(2000),
        Op::SensorRun(false),
        Op::Usleep(2000),
        Op::SensorRun(true),
        Op::Usleep(2000),
    ]
}

/// The accesses that bring up the port and the sensor: the sensor's clock is an eighth of the bus
/// clock, and that of the configuration bus as slow as can be.
pub open spec fn init_ops() -> Seq<Op> {
    seq![
        Op::ClockOn,
        Op::Reset(true),
        Op::Usleep(10),
        Op::Reset(false),
        Op::Xclk(3),
        Op::SccbClock(255, 255),
    ] + reset_ops()
}

/// Bursts of a line of `width` pixels: a beat carries eight pixels.
pub open spec fn bursts(burst_mode: bool, width: u16) -> u8 {
    if burst_mode {
        (width / 8 / 4) as u8
    } else {
        (width / 8) as u8
    }
}

/// The accesses that set the size of a frame.
pub open spec fn size_ops(burst_mode: bool, width: u16, height: u16) -> Seq<Op> {
    seq![
        Op::FourBeats(burst_mode),
        Op::Size { bursts: bursts(burst_mode, width), lines: height },
    ]
}

/// The accesses that capture one frame: from the next start of a frame on, so that it is whole.
pub open spec fn capture_ops() -> Seq<Op> {
    seq![
        Op::WaitFrameStart,
        Op::AckFrameStart,
        Op::WaitFrameStart,
        Op::Capture,
        Op::WaitFrameFinish,
    ]
}

/// Cycles to idle for `us` microseconds, or somewhat more.
pub fn usleep(us: u32) -> (cycles: u32)
    ensures
        cycles == if us * 60 <= u32::MAX {
            (us * 60) as u32
        } else {
            u32::MAX
        },
{
    if us <= u32::MAX / 60 {
        us * 60
    } else {
        u32::MAX
    }
}

/// The digital video port.
#[derive(Clone, Copy, Debug, PartialEq, Eq, Structural)]
pub struct Dvp;

impl Dvp {
    /// The port.
    pub fn new() -> (r: Dvp)
        ensures
            r == Dvp,
    {
        Dvp
    }

    /// Run the configuration bus as slow as can be.
    pub fn sccb_clk_init(&self) -> (op: Op)
        ensures
            op == Op::SccbClock(255, 255),
    {
        Op::SccbClock(255, 255)
    }

    /// Make one transfer on the configuration bus.
    pub fn sccb_start_transfer(&self) -> (ops: [Op; 3])
        ensures
            ops@ == transfer_ops(),
    {
        let ops = [Op::WaitSccb, Op::SccbStart, Op::WaitSccb];
        assert(ops@ =~= transfer_ops());
        ops
    }

    /// Write an 8-bit register of a device.
    pub fn sccb_send(&self, dev_addr: u8, reg_addr: u8, reg_data: u8) -> (ops: [Op; 5])
        ensures
            ops@ == send_ops(dev_addr, reg_addr, reg_data),
    {
        let go = self.sccb_start_transfer();
        let ops = [
            Op::SccbBytes(3),
            Op::SccbWrite { device: dev_addr | 1, register: reg_addr, data: reg_data },
            go[0],
            go[1],
            go[2],
        ];
        assert(ops@ =~= send_ops(dev_addr, reg_addr, reg_data));
        ops
    }

    /// Read an 8-bit register of a device. The data is in the port's read register afterwards.
    pub fn sccb_receive(&self, dev_addr: u8, reg_addr: u8) -> (ops: [Op; 9])
        ensures
            ops@ == receive_ops(dev_addr, reg_addr),
    {
        let go = self.sccb_start_transfer();
        let ops = [
            Op::SccbBytes(2),
            Op::SccbRegister { device: dev_addr | 1, register: reg_addr },
            go[0],
            go[1],
            go[2],
            Op::SccbDevice(dev_addr),
            go[0],
            go[1],
            go[2],
        ];
        assert(ops@ =~= receive_ops(dev_addr, reg_addr));
        ops
    }

    /// Power-cycle and reset the sensor.
    pub fn reset_sensor(&self) -> (ops: [Op; 8])
        ensures
            ops@ == reset_ops(),
    {
        let ops = [
            Op::PowerDown(true),
            Op::Usleep(2000),
            Op::PowerDown(false),
            Op::Usleep(2000),
            Op::SensorRun(false),
            Op::Usleep(2000),
            Op::SensorRun(true),
            Op::Usleep(2000),
        ];
        assert(ops@ =~= reset_ops());
        ops
    }

    /// Bring up the port, the sensor's clock and the configuration bus, and reset the sensor.
    pub fn init(&self) -> (ops: [Op; 14])
        ensures
            ops@ == init_ops(),
    {
        let reset = self.reset_sensor();
        let ops = [
            Op::ClockOn,
            Op::Reset(true),
            Op::Usleep(10),
            Op::Reset(false),
            Op::Xclk(3),
            self.sccb_clk_init(),
            reset[0],
            reset[1],
            reset[2],
            reset[3],
            reset[4],
            reset[5],
            reset[6],
            reset[7],
        ];
        assert(ops@ =~= init_ops());
        ops
    }

    /// Set the format.
    pub fn set_image_format(&self, format: ImageFormat) -> (op: Op)
        ensures
            op == Op::Format(format),
    {
        Op::Format(format)
    }

    /// Set the size of a frame. In burst mode the width must be a multiple of 32.
    pub fn set_image_size(&self, burst_mode: bool, width: u16, height: u16) -> (ops: [Op; 2])
        ensures
            ops@ == size_ops(burst_mode, width, height),
    {
        let bursts: u8 = if burst_mode {
            (width / 8 / 4) as u8
        } else {
            (width / 8) as u8
        };
        let ops = [Op::FourBeats(burst_mode), Op::Size { bursts, lines: height }];
        assert(ops@ =~= size_ops(burst_mode, width, height));
        ops
    }

    /// Send planes to these addresses, or switch them off: what to do first, if anything, and then.
    pub fn set_ai_addr(&self, addr: Option<(u32, u32, u32)>) -> (ops: (Option<Op>, Op))
        ensures
            ops == match addr {
                Some((r, g, b)) => (Some(Op::PlaneAddresses(r, g, b)), Op::PlanarOutput(true)),
                None => (None::<Op>, Op::PlanarOutput(false)),
            },
    {
        match addr {
            Some((r, g, b)) => (Some(Op::PlaneAddresses(r, g, b)), Op::PlanarOutput(true)),
            None => (None, Op::PlanarOutput(false)),
        }
    }

    /// Send packed RGB565 to this address, or switch it off: what to do first, if anything, and
    /// then.
    pub fn set_display_addr(&self, addr: Option<u32>) -> (ops: (Option<Op>, Op))
        ensures
            ops == match addr {
                Some(a) => (Some(Op::PackedAddress(a)), Op::PackedOutput(true)),
                None => (None::<Op>, Op::PackedOutput(false)),
            },
    {
        match addr {
            Some(a) => (Some(Op::PackedAddress(a)), Op::PackedOutput(true)),
            None => (None, Op::PackedOutput(false)),
        }
    }

    /// Capture every frame, or only on demand.
    pub fn set_auto(&self, enable: bool) -> (op: Op)
        ensures
            op == Op::Auto(enable),
    {
        Op::Auto(enable)
    }

    /// Capture one whole frame.
    pub fn get_image(&self) -> (ops: [Op; 5])
        ensures
            ops@ == capture_ops(),
    {
        let ops = [
            Op::WaitFrameStart,
            Op::AckFrameStart,
            Op::WaitFrameStart,
            Op::Capture,
            Op::WaitFrameFinish,
        ];
        assert(ops@ =~= capture_ops());
        ops
    }
}

/// The accesses that read the registers that identify the sensor: its bank is selected, and each
/// register is read.
pub open spec fn id_ops() -> Seq<Op> {
    send_ops(OV2640_ADDR, BANK_SELECT, SENSOR_BANK) + receive_ops(OV2640_ADDR, ID_REGISTERS[0])
        + receive_ops(OV2640_ADDR, ID_REGISTERS[1]) + receive_ops(OV2640_ADDR, ID_REGISTERS[2])
        + receive_ops(OV2640_ADDR, ID_REGISTERS[3])
}

/// The accesses that read the registers that identify the sensor, part by part.
#[derive(Clone, Copy, Debug, PartialEq, Eq)]
pub struct ReadId {
    /// Select the sensor's bank.
    pub select: [Op; 5],
    /// Read each of `ID_REGISTERS`. After each part its data is in the port's read register.
    pub reads: [[Op; 9]; 4],
}

impl ReadId {
    /// All accesses, in order.
    pub open spec fn ops(self) -> Seq<Op> {
        self.select@ + self.reads@[0]@ + self.reads@[1]@ + self.reads@[2]@ + self.reads@[3]@
    }
}

/// Read the registers that identify the sensor.
pub fn read_id_registers(dvp: &Dvp) -> (r: ReadId)
    ensures
        r.select@ == send_ops(OV2640_ADDR, BANK_SELECT, SENSOR_BANK),
        forall|i: int|
            0 <= i < 4 ==> (#[trigger] r.reads@[i])@ == receive_ops(OV2640_ADDR, ID_REGISTERS[i]),
        r.ops() == id_ops(),
{
    ReadId {
        select: dvp.sccb_send(OV2640_ADDR, BANK_SELECT, SENSOR_BANK),
        reads: [
            dvp.sccb_receive(OV2640_ADDR, ID_REGISTERS[0]),
            dvp.sccb_receive(OV2640_ADDR, ID_REGISTERS[1]),
            dvp.sccb_receive(OV2640_ADDR, ID_REGISTERS[2]),
            dvp.sccb_receive(OV2640_ADDR, ID_REGISTERS[3]),
        ],
    }
}

/// The number with the given high and low byte.
pub open spec fn be16(high: u8, low: u8) -> u16 {
    (high * 256 + low) as u16
}

/// Manufacturer and product of the sensor, from what `ID_REGISTERS` hold in the sensor's bank. An
/// OV2640 gives (0x7fa2, 0x2642).
pub fn ov2640_read_id(regs: [u8; 4]) -> (id: (u16, u16))
    ensures
        id == (be16(regs@[0], regs@[1]), be16(regs@[2], regs@[3])),
{
    (regs[0] as u16 * 256 + regs[1] as u16, regs[2] as u16 * 256 + regs[3] as u16)
}

/// Reading the sensor's identity writes one register of the sensor, the bank select, ahead of
/// everything it reads.
pub proof fn law_id_writes_bank_only(i: int)
    requires
        0 <= i < id_ops().len(),
    ensures
        id_ops()[i] matches Op::SccbWrite { device, register, data } ==> {
            &&& i == 1
            &&& device == OV2640_ADDR | 1
            &&& register == BANK_SELECT
            &&& data == SENSOR_BANK
        },
        id_ops()[i] is SccbRegister ==> i >= 5,
        id_ops()[1] == (Op::SccbWrite {
            device: OV2640_ADDR | 1,
            register: BANK_SELECT,
            data: SENSOR_BANK,
        }),
        id_ops().len() == 41,
{
}

/// No transfer on the configuration bus is started while one is under way, and each is over before
/// anything else is done.
pub proof fn law_transfers_are_exclusive(dev_addr: u8, reg_addr: u8, reg_data: u8)
    ensures
        forall|i: int|
            0 <= i < send_ops(dev_addr, reg_addr, reg_data).len() && #[trigger] send_ops(
                dev_addr,
                reg_addr,
                reg_data,
            )[i] == Op::SccbStart ==> {
                &&& i > 0
                &&& i + 1 < send_ops(dev_addr, reg_addr, reg_data).len()
                &&& send_ops(dev_addr, reg_addr, reg_data)[i - 1] == Op::WaitSccb
                &&& send_ops(dev_addr, reg_addr, reg_data)[i + 1] == Op::WaitSccb
            },
        forall|i: int|
            0 <= i < receive_ops(dev_addr, reg_addr).len() && #[trigger] receive_ops(
                dev_addr,
                reg_addr,
            )[i] == Op::SccbStart ==> {
                &&& i > 0
                &&& i + 1 < receive_ops(dev_addr, reg_addr).len()
                &&& receive_ops(dev_addr, reg_addr)[i - 1] == Op::WaitSccb
                &&& receive_ops(dev_addr, reg_addr)[i + 1] == Op::WaitSccb
            },
{
}

/// For a width that is a multiple of what a burst carries, and that the register can hold, the
/// bursts cover the line exactly.
pub proof fn law_bursts_cover_line(burst_mode: bool, width: u16)
    requires
        burst_mode ==> width % 32 == 0,
        !burst_mode ==> width % 8 == 0,
        width < 2048,
    ensures
        bursts(burst_mode, width) * (if burst_mode {
            32int
        } else {
            8
        }) == width,
{
}

/// A register is written in one transfer that names the device for writing, the register and the
/// data; it is read in two, of which the first names the device and the register, and the second
/// the device alone.
pub proof fn law_sccb(dev_addr: u8, reg_addr: u8, reg_data: u8)
    ensures
        send_ops(dev_addr, reg_addr, reg_data) == seq![
            Op::SccbBytes(3),
            Op::SccbWrite { device: dev_addr | 1, register: reg_addr, data: reg_data },
            Op::WaitSccb,
            Op::SccbStart,
            Op::WaitSccb,
        ],
        receive_ops(dev_addr, reg_addr) == seq![
            Op::SccbBytes(2),
            Op::SccbRegister { device: dev_addr | 1, register: reg_addr },
            Op::WaitSccb,
            Op::SccbStart,
            Op::WaitSccb,
            Op::SccbDevice(dev_addr),
            Op::WaitSccb,
            Op::SccbStart,
            Op::WaitSccb,
        ],
{
    assert(send_ops(dev_addr, reg_addr, reg_data) =~= seq![
        Op::SccbBytes(3),
        Op::SccbWrite { device: dev_addr | 1, register: reg_addr, data: reg_data },
        Op::WaitSccb,
        Op::SccbStart,
        Op::WaitSccb,
    ]);
    assert(receive_ops(dev_addr, reg_addr) =~= seq![
        Op::SccbBytes(2),
        Op::SccbRegister { device: dev_addr | 1, register: reg_addr },
        Op::WaitSccb,
        Op::SccbStart,
        Op::WaitSccb,
        Op::SccbDevice(dev_addr),
        Op::WaitSccb,
        Op::SccbStart,
        Op::WaitSccb,
    ]);
}

/// The identity is high byte times 256 and low byte, and the registers that hold it.
pub proof fn law_identity(high: u8, low: u8)
    ensures
        be16(high, low) == 256 * high + low,
        ID_REGISTERS@ == seq![0x1cu8, 0x1d, 0x0a, 0x0b],
        (OV2640_ADDR, BANK_SELECT, SENSOR_BANK) == (0x60u8, 0xffu8, 0x01u8),
{
    assert(ID_REGISTERS@ =~= seq![0x1cu8, 0x1d, 0x0a, 0x0b]);
}

/// The size of a frame is set with all its lines, and with single beats or bursts of four as asked.
pub proof fn law_size(burst_mode: bool, width: u16, height: u16)
    ensures
        size_ops(burst_mode, width, height).len() == 2,
        size_ops(burst_mode, width, height)[0] == Op::FourBeats(burst_mode),
        size_ops(burst_mode, width, height)[1] matches Op::Size { bursts: n, lines } && lines
            == height && (width < 2048 ==> n == width as int / if burst_mode {
            32
        } else {
            8
        }),
{
}

} // verus!
