use k210_camera::clock::{end_of, mtime_ms, waits};
use k210_camera::dmac::{is_memory, uncached, AddressInc, BurstLen, Dmac, Flow, Handshake, TransWidth};
use k210_camera::dvp::{ov2640_read_id, read_id_registers, usleep, Dvp, ImageFormat, OV2640_ADDR};
use k210_camera::gpio::{gpi, gpo};
use k210_camera::rtc::Rtc;
use k210_camera::{dmac, dvp, rtc};

#[test]
fn time_in_ticks() {
    assert_eq!(end_of(10, 3), 23_410);
    assert!(waits(3, 10, 23_409));
    assert!(!waits(3, 10, 23_410));
    assert_eq!(mtime_ms(7_799), 0);
    assert_eq!(mtime_ms(15_600), 2);
}

#[test]
fn pins() {
    assert_eq!(gpo(0, 31, true), 0x8000_0000);
    assert_eq!(gpo(0xFF, 3, false), 0xF7);
    assert_eq!(gpo(0xF7, 3, false), 0xF7);
    assert!(gpi(0x10, 4));
    assert!(!gpi(0x10, 5));
}

#[test]
fn memory_and_peripherals() {
    assert!(is_memory(0x8000_0000));
    assert!(is_memory(0x805F_FFFF));
    assert!(!is_memory(0x8060_0000));
    assert!(is_memory(0x4000_0000));
    assert!(is_memory(0x407F_FFFF));
    assert!(!is_memory(0x4080_0000));
    assert!(is_memory(0x5045_0040));
    assert!(!is_memory(0x5045_0044));
    assert!(!is_memory(0x3FFF_FFFF));
    assert_eq!(uncached(0x8000_1000), 0x4000_1000);
    assert!(is_memory(uncached(0x805F_FFFF) as u64));
}

#[test]
fn controller_comes_up() {
    let (d, ops) = Dmac::new();
    assert_eq!(
        ops,
        [
            dmac::Op::ClockOn,
            dmac::Op::Reset,
            dmac::Op::WaitReset,
            dmac::Op::ClearErrors,
            dmac::Op::Enable(false),
            dmac::Op::WaitDisabled,
            dmac::Op::ChannelsOff,
            dmac::Op::Enable(true),
        ]
    );
    assert_eq!(d.init(), ops);
}

#[test]
fn channels_beyond_the_last_are_the_last() {
    let d = Dmac::new().0;
    assert_eq!(d.channel_enable(2), dmac::Op::Channel(2, true));
    assert_eq!(d.channel_disable(9), dmac::Op::Channel(5, false));
    assert_eq!(d.set_select_request(6, 3), dmac::Op::Select { channel: 5, select: 3 });
    let enabled = [false, true, false, false, false, true];
    assert!(d.busy(enabled, 1));
    assert!(!d.busy(enabled, 4));
    assert!(d.busy(enabled, 77));
    assert_eq!(d.interrupt_clear(5), dmac::Op::InterruptClear(5));
}

#[test]
fn transfer_is_started_in_order() {
    let d = Dmac::new().0;
    let ops = d.start_single(
        3,
        0x4000_0000,
        0x4200_0000,
        AddressInc::Increment,
        AddressInc::NoChange,
        BurstLen::Length4,
        TransWidth::Width64,
        128,
    );
    assert_eq!(
        ops,
        [
            dmac::Op::InterruptClear(3),
            dmac::Op::Channel(3, false),
            dmac::Op::WaitIdle(3),
            dmac::Op::InterruptClear(3),
            dmac::Op::Configure {
                ch: 3,
                flow: Flow::MemoryToPeripheral,
                src: Handshake::Software,
                dst: Handshake::Hardware,
                line: 3,
            },
            dmac::Op::Source(3, 0x4000_0000),
            dmac::Op::Destination(3, 0x4200_0000),
            dmac::Op::Control {
                ch: 3,
                src_inc: AddressInc::Increment,
                dst_inc: AddressInc::NoChange,
                width: TransWidth::Width64,
                burst: BurstLen::Length4,
            },
            dmac::Op::BlockSize(3, 127),
            dmac::Op::Channel(3, true),
        ]
    );
}

#[test]
fn flows() {
    let d = Dmac::new().0;
    let flow = |src: u64, dst: u64| {
        let ops = d.set_channel_param(
            0,
            src,
            dst,
            AddressInc::Increment,
            AddressInc::Increment,
            BurstLen::Length1,
            TransWidth::Width8,
            1,
        );
        match ops[0] {
            dmac::Op::Configure { flow, .. } => flow,
            _ => panic!("the configuration comes first"),
        }
    };
    assert_eq!(flow(0x8000_0000, 0x4000_0000), Flow::MemoryToMemory);
    assert_eq!(flow(0x4200_0000, 0x4000_0000), Flow::PeripheralToMemory);
    assert_eq!(flow(0x4000_0000, 0x4200_0000), Flow::MemoryToPeripheral);
    assert_eq!(flow(0x4200_0000, 0x4200_0000), Flow::PeripheralToPeripheral);
}

#[test]
fn sensor_registers() {
    let d = Dvp::new();
    assert_eq!(
        d.sccb_send(OV2640_ADDR, 0xff, 0x01),
        [
            dvp::Op::SccbBytes(3),
            dvp::Op::SccbWrite { device: 0x61, register: 0xff, data: 0x01 },
            dvp::Op::WaitSccb,
            dvp::Op::SccbStart,
            dvp::Op::WaitSccb,
        ]
    );
    let ops = d.sccb_receive(OV2640_ADDR, 0x0a);
    assert_eq!(ops[1], dvp::Op::SccbRegister { device: 0x61, register: 0x0a });
    assert_eq!(ops[5], dvp::Op::SccbDevice(0x60));
    assert_eq!(ops.iter().filter(|op| **op == dvp::Op::SccbStart).count(), 2);
}

#[test]
fn identity_of_the_sensor() {
    assert_eq!(ov2640_read_id([0x7f, 0xa2, 0x26, 0x42]), (0x7fa2, 0x2642));
}

#[test]
fn identity_is_read_from_the_sensors_bank() {
    let d = Dvp::new();
    let id = read_id_registers(&d);
    assert_eq!(id.select, d.sccb_send(0x60, 0xff, 0x01));
    for (i, &register) in [0x1c, 0x1d, 0x0a, 0x0b].iter().enumerate() {
        assert_eq!(id.reads[i], d.sccb_receive(0x60, register));
    }
    let written = id.select.iter().chain(id.reads.iter().flatten());
    let written: Vec<&dvp::Op> = written.filter(|op| matches!(op, dvp::Op::SccbWrite { .. })).collect();
    assert_eq!(written, [&dvp::Op::SccbWrite { device: 0x61, register: 0xff, data: 0x01 }]);
}

#[test]
fn video_port() {
    let d = Dvp::new();
    let ops = d.init();
    assert_eq!((ops[4], ops[5]), (dvp::Op::Xclk(3), dvp::Op::SccbClock(255, 255)));
    assert_eq!(ops[6..], d.reset_sensor()[..]);
    assert_eq!(
        d.set_image_size(false, 320, 240),
        [dvp::Op::FourBeats(false), dvp::Op::Size { bursts: 40, lines: 240 }]
    );
    assert_eq!(
        d.set_image_size(true, 640, 480),
        [dvp::Op::FourBeats(true), dvp::Op::Size { bursts: 20, lines: 480 }]
    );
    assert_eq!(d.set_image_format(ImageFormat::Rgb), dvp::Op::Format(ImageFormat::Rgb));
    assert_eq!(
        d.set_ai_addr(Some((1, 2, 3))),
        (Some(dvp::Op::PlaneAddresses(1, 2, 3)), dvp::Op::PlanarOutput(true))
    );
    assert_eq!(d.set_ai_addr(None), (None, dvp::Op::PlanarOutput(false)));
    assert_eq!(
        d.set_display_addr(Some(9)),
        (Some(dvp::Op::PackedAddress(9)), dvp::Op::PackedOutput(true))
    );
    assert_eq!(d.set_display_addr(None), (None, dvp::Op::PackedOutput(false)));
    assert_eq!(d.set_auto(false), dvp::Op::Auto(false));
    assert_eq!(d.get_image()[3], dvp::Op::Capture);
}

#[test]
fn idle_cycles() {
    assert_eq!(usleep(2000), 120_000);
    assert_eq!(usleep(71_582_788), 4_294_967_280);
    assert_eq!(usleep(71_582_789), u32::MAX);
}

#[test]
fn real_time_clock() {
    let r = Rtc::new();
    let ops = r.init();
    assert_eq!(ops[4], rtc::Op::Unmask);
    assert_eq!(ops[5], rtc::Op::InitialCount(26_000_000));
    assert_eq!(ops[6], rtc::Op::CurrentCount(1));
    assert_eq!(
        r.set_datetime(2026, 6, 16, 2, 12, 0, 0),
        [
            rtc::Op::Setting,
            rtc::Op::Date { year: 2026, month: 6, day: 16, week: 2 },
            rtc::Op::Time { hour: 12, minute: 0, second: 0 },
            rtc::Op::Running,
        ]
    );
}
