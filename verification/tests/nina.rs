use k210_camera::nina::receive::{take, Receiver, Took};
use k210_camera::nina::send::Sender;
use k210_camera::nina::{
    frame_begin, frame_end, init, ready, request, request_once, sleep_ms, spi_init, wait_ready, Attempt,
    BootStep, Bus, Look, Once, Request, Select, SpiSetup, WaitReady, CMD_GET_FW_VERSION, CS, EN,
};

fn sent(cmd: u8, params: &[&[u8]]) -> Vec<u8> {
    let mut s = Sender::new();
    let mut out = Vec::new();
    while let Some(b) = s.next(cmd, params) {
        out.push(b);
    }
    assert_eq!(s.next(cmd, params), None);
    out
}

fn received(cmd: u8, bytes: &[u8], resp: &mut [u8], lens: &mut [usize]) -> (usize, Took) {
    let mut r = Receiver::new(resp, lens);
    for (i, &b) in bytes.iter().enumerate() {
        let took = take(&mut r, cmd, b, resp, lens);
        if took != Took::More {
            return (i + 1, took);
        }
    }
    (bytes.len(), Took::More)
}

#[test]
fn commands_are_framed_and_padded() {
    assert_eq!(sent(0x37, &[]), vec![0xE0, 0x37, 0, 0xEE]);
    assert_eq!(sent(0xB7, &[]), vec![0xE0, 0x37, 0, 0xEE]);
    assert_eq!(sent(0x32, &[&[5]]), vec![0xE0, 0x32, 1, 1, 5, 0xEE, 0xFF, 0xFF]);
    assert_eq!(
        sent(0x11, &[b"home", b"", b"word"]),
        vec![
            0xE0, 0x11, 3, 4, b'h', b'o', b'm', b'e', 0, 4, b'w', b'o', b'r', b'd', 0xEE, 0xFF,
        ]
    );
}

#[test]
fn replies_are_taken_apart() {
    let mut resp = [0u8; 16];
    let mut lens = [99usize; 3];
    let frame = [0xE0, 0xB7, 2, 5, b'1', b'.', b'2', b'.', b'2', 1, 0xE0, 0xEE];
    assert_eq!(received(0x37, &frame, &mut resp, &mut lens), (12, Took::Done(2, true)));
    assert_eq!(&resp[..7], b"1.2.2\xE0\0");
    assert_eq!(lens, [5, 1, 99]);
}

#[test]
fn replies_are_found_behind_other_bytes() {
    let mut resp = [0u8; 4];
    let mut lens = [0usize; 1];
    let mut bytes = vec![0xFFu8; 299];
    bytes.extend([0xE0, 0xB7, 0, 0xEE]);
    assert_eq!(received(0x37, &bytes, &mut resp, &mut lens), (303, Took::Done(0, true)));
    // One more, and it is too late.
    bytes.insert(0, 0xFF);
    assert_eq!(received(0x37, &bytes, &mut resp, &mut lens), (300, Took::Done(0, false)));
    assert_eq!((resp, lens), ([0u8; 4], [0usize; 1]));
}

#[test]
fn buffers_that_are_too_small_take_what_they_can() {
    let mut resp = [0u8; 3];
    let mut lens = [0usize; 1];
    let frame = [0xE0, 0xA7, 3, 2, 1, 2, 0, 2, 3, 4, 0xEE];
    assert_eq!(received(0x27, &frame, &mut resp, &mut lens), (11, Took::Done(3, true)));
    assert_eq!((resp, lens), ([1, 2, 3], [2]));
}

#[test]
fn wrong_replies_are_not_valid() {
    let mut resp = [0u8; 4];
    let mut lens = [0usize; 1];
    // Of another command; of no command; with a wrong end.
    assert_eq!(received(0x37, &[0xE0, 0xB6, 0, 0xEE], &mut resp, &mut lens).1, Took::Done(0, false));
    assert_eq!(received(0x37, &[0xE0, 0x37, 0, 0xEE], &mut resp, &mut lens).1, Took::Done(0, false));
    assert_eq!(received(0x37, &[0xE0, 0xB7, 1, 0, 0], &mut resp, &mut lens).1, Took::Done(1, false));
}

#[test]
fn one_exchange() {
    let mut resp = [0u8; 8];
    let mut lens = [0usize; 2];
    let params: [&[u8]; 0] = [];
    let reply = [0xFF, 0xE0, 0xB7, 1, 2, 7, 8, 0xEE];
    let mut o = Once::new(&resp, &lens);
    let mut trace = Vec::new();
    let mut answer = 0;
    let mut next = 0;
    let (n, valid) = loop {
        match request_once(&mut o, CMD_GET_FW_VERSION, &params, &mut resp, &mut lens, answer) {
            Bus::Begin => trace.push("begin".to_string()),
            Bus::End => trace.push("end".to_string()),
            Bus::Xfer(b) => {
                trace.push(format!("{:02x}", b));
                answer = 0;
                if trace.len() > 7 {
                    answer = reply[next];
                    next += 1;
                }
            }
            Bus::Done(n, valid) => break (n, valid),
        }
    };
    assert_eq!((n, valid), (1, true));
    assert_eq!(
        trace.join(" "),
        "begin e0 37 00 ee end begin ff ff ff ff ff ff ff ff end"
    );
    assert_eq!((&resp[..3], lens), (&[7u8, 8, 0][..], [2, 0]));
}

#[test]
fn valid_reply_ends_a_request() {
    let mut r = Request::new();
    assert_eq!(request(&mut r, 3, true), Attempt::Done(3, 0));
    let mut r = Request::new();
    assert_eq!(request(&mut r, 1, false), Attempt::Sleep(2));
    assert_eq!(request(&mut r, 0, false), Attempt::Once);
    assert_eq!(request(&mut r, 2, true), Attempt::Done(2, 1));
}

#[test]
fn request_is_given_up_after_eight_exchanges() {
    let mut r = Request::new();
    for _ in 0..7 {
        assert_eq!(request(&mut r, 5, false), Attempt::Sleep(2));
        assert_eq!(request(&mut r, 5, false), Attempt::Once);
    }
    assert_eq!(request(&mut r, 5, false), Attempt::Sleep(2));
    assert_eq!(request(&mut r, 5, true), Attempt::Done(0, 8));
}

#[test]
fn ready_line() {
    assert!(ready(4));
    assert!(!ready(3));
    assert!(sleep_ms(1, 0, 7799));
    assert!(!sleep_ms(1, 0, 7800));
}

#[test]
fn waiting_for_the_ready_line() {
    let mut w = WaitReady::new(false, 0, 100);
    assert_eq!(wait_ready(&mut w, 0), Look::ReadPort);
    assert_eq!(wait_ready(&mut w, 4), Look::ReadTime);
    assert_eq!(wait_ready(&mut w, 779_999), Look::ReadPort);
    assert_eq!(wait_ready(&mut w, 3), Look::Done(true));
    // Late, the line is looked at once more.
    let mut w = WaitReady::new(true, 0, 10);
    assert_eq!(wait_ready(&mut w, 78_000), Look::ReadPort);
    assert_eq!(wait_ready(&mut w, 4), Look::Done(true));
    let mut w = WaitReady::new(true, 0, 10);
    wait_ready(&mut w, 78_000);
    assert_eq!(wait_ready(&mut w, 0), Look::Done(false));
}

#[test]
fn frames_of_the_chip_select() {
    assert_eq!(
        frame_begin(),
        [Select::WaitReady(false, 100), Select::Cs(false), Select::WaitReady(true, 10)]
    );
    assert_eq!(frame_end(), Select::Cs(true));
}

#[test]
fn set_up_of_the_coprocessor() {
    let steps = init();
    assert_eq!(steps[0], BootStep::Outputs((1 << EN) | (1 << CS)));
    assert_eq!(steps[1], BootStep::Inputs(1 << 2));
    assert_eq!(steps[4], BootStep::Pin(CS, true));
    assert_eq!(steps[8], BootStep::Sleep(2000));
    let spi = spi_init();
    assert_eq!((spi[2], spi[12]), (SpiSetup::Enable(0), SpiSetup::Enable(1)));
    assert_eq!(spi[6], SpiSetup::Baud(100));
}
