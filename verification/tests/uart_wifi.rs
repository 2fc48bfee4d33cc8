use k210_camera::uart_wifi::reply::{Action, Exchange, Reply, Step};
use k210_camera::uart_wifi::{
    bringup, cmd, drain, init, read_exact, read_reply, reset_esp, rx_byte, send_frame, set_en,
    sleep_ms, wait_marker, Bring, BringUp, Drain, Fill, Filling, Power, Receive, Scan, Setup,
    Transmit, Wire, CMD_ACCEPT, CMD_CLOSE, CMD_CONNECT, CMD_LISTEN, CMD_PING, CMD_RECV, CMD_SEND, CMD_SEND565,
};

/// Feed a search with bytes, with a status that says no in between.
fn scan(bytes: &[u8]) -> bool {
    let mut s = Scan::new(1000, 10);
    let mut ask = Wire::ReadTime;
    let mut next = 0;
    let mut idle = true;
    loop {
        let answer = match ask {
            Wire::ReadTime => {
                if next == bytes.len() {
                    1000 + 78_000
                } else {
                    1000 + 77_999
                }
            }
            Wire::ReadStatus => {
                idle = !idle;
                if idle {
                    0x60
                } else {
                    0x61
                }
            }
            Wire::ReadData => {
                next += 1;
                0xF00 | bytes[next - 1] as u64
            }
            Wire::WriteData(_) => panic!("nothing is written"),
            Wire::Done => return s.is_found(),
        };
        ask = wait_marker(&mut s, answer);
    }
}

#[test]
fn commands_have_their_tags() {
    assert_eq!(
        [CMD_PING, CMD_CONNECT, CMD_LISTEN, CMD_ACCEPT, CMD_RECV, CMD_SEND, CMD_SEND565, CMD_CLOSE],
        *b"PCLARSBX"
    );
}

#[test]
fn sleeping_takes_its_time() {
    assert!(sleep_ms(40, 100, 100));
    assert!(sleep_ms(40, 100, 100 + 311_999));
    assert!(!sleep_ms(40, 100, 100 + 312_000));
    assert!(!sleep_ms(0, 5, 5));
}

#[test]
fn marker_is_found() {
    assert!(scan(b"\xAA\x55MDM1"));
    assert!(scan(b"ets Jun  8\r\n\xAA\x55MDM1\n"));
    // A beginning of the marker before the marker.
    assert!(scan(b"\xAA\xAA\x55MDM1"));
    assert!(scan(b"\xAA\x55MDM\xAA\x55MDM1"));
    assert!(scan(b"\xAA\x55\xAA\x55M\xAA\x55MDM1"));
}

#[test]
fn marker_is_missed() {
    assert!(!scan(b""));
    assert!(!scan(b"\xAA\x55MDM"));
    assert!(!scan(b"\xAA\x55MDM2"));
    assert!(!scan(b"\xAA\x55MDMDM1"));
}

#[test]
fn enable_line() {
    assert_eq!(set_en(0, 0, true), (1, 1));
    assert_eq!(set_en(6, 7, false), (7, 6));
    assert_eq!(
        reset_esp(),
        [Power::Enable(false), Power::Sleep(40), Power::Enable(true), Power::Sleep(50)]
    );
}

#[test]
fn divisor_of_three_megabaud() {
    let steps = init(3_000_000);
    // 65 sixteenths: 4.0625.
    assert_eq!(steps[6], Setup::Lcr(0x80));
    assert_eq!(steps[7], Setup::DlhIer(0));
    assert_eq!(steps[8], Setup::Dll(4));
    assert_eq!(steps[9], Setup::Dlf(1));
    assert_eq!(steps[10], Setup::Lcr(0x03));
    assert_eq!(steps[14], Setup::DrainStale);
    // 115200: 1692 sixteenths.
    let steps = init(115_200);
    assert_eq!((steps[7], steps[8], steps[9]), (Setup::DlhIer(0), Setup::Dll(105), Setup::Dlf(12)));
    // 300: 650000 sixteenths.
    let steps = init(300);
    assert_eq!((steps[7], steps[8], steps[9]), (Setup::DlhIer(158), Setup::Dll(177), Setup::Dlf(0)));
}

#[test]
fn bytes_are_received() {
    // At once.
    let mut r = Receive::new(0, 1);
    assert_eq!(rx_byte(&mut r, 1), Wire::ReadData);
    assert_eq!(rx_byte(&mut r, 0x1AB), Wire::Done);
    assert_eq!(r.result(), Some(0xAB));
    // At the last tick the wait goes on.
    let mut r = Receive::new(0, 1);
    assert_eq!(rx_byte(&mut r, 0x60), Wire::ReadTime);
    assert_eq!(rx_byte(&mut r, 7800), Wire::ReadStatus);
    assert_eq!(rx_byte(&mut r, 0x60), Wire::ReadTime);
    assert_eq!(rx_byte(&mut r, 7801), Wire::Done);
    assert_eq!(r.result(), None);
}

#[test]
fn drain_drops_until_its_end() {
    let mut d = Drain::new(0, 20);
    assert_eq!(drain(&mut d, 0), Wire::ReadStatus);
    assert_eq!(drain(&mut d, 1), Wire::ReadData);
    assert_eq!(drain(&mut d, 10), Wire::ReadTime);
    assert_eq!(drain(&mut d, 155_999), Wire::ReadStatus);
    assert_eq!(drain(&mut d, 0), Wire::ReadTime);
    assert_eq!(drain(&mut d, 156_000), Wire::Done);
}

#[test]
fn bytes_are_transmitted_in_order() {
    let data = b"SC";
    let mut t = Transmit::new(data);
    assert_eq!(t.first(), Wire::ReadStatus);
    assert_eq!(k210_camera::uart_wifi::write(&mut t, data, 0), Wire::ReadStatus);
    assert_eq!(k210_camera::uart_wifi::write(&mut t, data, 0x20), Wire::WriteData(b'S'));
    assert_eq!(k210_camera::uart_wifi::write(&mut t, data, 0), Wire::ReadStatus);
    assert_eq!(k210_camera::uart_wifi::write(&mut t, data, 0x60), Wire::WriteData(b'C'));
    assert_eq!(k210_camera::uart_wifi::write(&mut t, data, 0), Wire::Done);
    assert_eq!(Transmit::new(b"").first(), Wire::Done);
}

#[test]
fn buffers_are_filled() {
    let mut buf = [0u8; 2];
    let mut f = Filling::new(&buf);
    assert_eq!(f.state(), Fill::More);
    assert_eq!(read_exact(&mut f, &mut buf, Some(7)), Fill::More);
    assert_eq!(buf, [7, 0]);
    assert_eq!(read_exact(&mut f, &mut buf, Some(8)), Fill::Full);
    assert_eq!(buf, [7, 8]);
    assert_eq!(f.state(), Fill::Full);
}

#[test]
fn buffer_keeps_what_came_in_time() {
    let mut buf = [1u8, 2, 3];
    let mut f = Filling::new(&buf);
    assert_eq!(read_exact(&mut f, &mut buf, Some(9)), Fill::More);
    assert_eq!(read_exact(&mut f, &mut buf, None), Fill::TimedOut);
    assert_eq!(buf, [9, 2, 3]);
    assert_eq!(f.state(), Fill::TimedOut);
}

#[test]
fn empty_buffer_is_full_at_once() {
    assert_eq!(Filling::new(&[]).state(), Fill::Full);
}

#[test]
fn modem_comes_up_at_the_second_attempt() {
    let mut b = BringUp::new();
    assert_eq!(bringup(&mut b, false), Bring::WaitMarker(2500));
    assert_eq!(bringup(&mut b, false), Bring::Reset);
    assert_eq!(bringup(&mut b, false), Bring::WaitMarker(2500));
    assert_eq!(bringup(&mut b, true), Bring::Drain(20));
    assert_eq!(bringup(&mut b, false), Bring::Done(true));
}

#[test]
fn modem_is_given_up_after_six_attempts() {
    let mut b = BringUp::new();
    for _ in 0..5 {
        assert_eq!(bringup(&mut b, false), Bring::WaitMarker(2500));
        assert_eq!(bringup(&mut b, false), Bring::Reset);
    }
    assert_eq!(bringup(&mut b, false), Bring::WaitMarker(2500));
    assert_eq!(bringup(&mut b, false), Bring::Done(false));
}

/// Feed bytes until the reply is complete; how many it took, and what came out.
fn reply(bytes: &[u8], buf: &mut [u8]) -> Option<(usize, Option<(u8, usize)>)> {
    let mut r = Reply::new();
    for (i, &b) in bytes.iter().enumerate() {
        if let Step::Done(got) = read_reply(&mut r, buf, Some(b)) {
            return Some((i + 1, got));
        }
    }
    None
}

#[test]
fn replies_are_received() {
    let mut buf = [0u8; 4];
    assert_eq!(reply(b"\xAA\x55I\x04\x00\xC0\xA8\x00\x07", &mut buf), Some((9, Some((b'I', 4)))));
    assert_eq!(buf, [192, 168, 0, 7]);
    // Without payload.
    assert_eq!(reply(b"\xAA\x55O\x00\x00rest", &mut buf), Some((5, Some((b'O', 0)))));
    assert_eq!(buf, [192, 168, 0, 7]);
}

#[test]
fn replies_are_found_behind_noise() {
    let mut buf = [0u8; 4];
    assert_eq!(reply(b"\x55x\xAA\xAA\xAA\x55S\x02\x00\x34\x12", &mut buf), Some((11, Some((b'S', 2)))));
    assert_eq!(&buf[..2], &[0x34, 0x12]);
    assert_eq!(reply(b"\xAAx\x55\xAA", &mut buf), None);
}

#[test]
fn long_replies_are_cut_and_drained() {
    let mut buf = [9u8; 2];
    assert_eq!(reply(b"\xAA\x55R\x05\x00abcdeX", &mut buf), Some((10, Some((b'R', 2)))));
    assert_eq!(&buf, b"ab");
    // The high byte of the length counts.
    let mut bytes = vec![0xAA, 0x55, b'R', 0x01, 0x01];
    bytes.extend(vec![b'z'; 257]);
    assert_eq!(reply(&bytes, &mut buf), Some((262, Some((b'R', 2)))));
    assert_eq!(reply(&bytes, &mut []), Some((262, Some((b'R', 0)))));
}

#[test]
fn missing_bytes_end_a_reply() {
    let mut r = Reply::new();
    let mut buf = [0u8; 4];
    assert_eq!(read_reply(&mut r, &mut buf, Some(0xAA)), Step::More);
    assert_eq!(read_reply(&mut r, &mut buf, None), Step::Done(None));
}

#[test]
fn frames_have_their_header() {
    assert_eq!(send_frame(b'S', 0x1234), [b'S', 0x34, 0x12]);
    assert_eq!(send_frame(b'A', 0), [b'A', 0, 0]);
    assert_eq!(send_frame(b'S', 1440), [b'S', 0xA0, 0x05]);
}

#[test]
fn exchange_with_payload() {
    let mut x = Exchange::new(b'L', 2);
    let mut buf = [0u8; 4];
    assert_eq!(cmd(&mut x, &mut buf, None), Action::WriteHeader([b'L', 2, 0]));
    assert_eq!(cmd(&mut x, &mut buf, None), Action::WritePayload);
    assert_eq!(cmd(&mut x, &mut buf, None), Action::Receive);
    for &b in b"\xAA\x55O\x00" {
        assert_eq!(cmd(&mut x, &mut buf, Some(b)), Action::Receive);
    }
    assert_eq!(cmd(&mut x, &mut buf, Some(0)), Action::Done(Some((b'O', 0))));
}

#[test]
fn exchange_without_payload_that_fails() {
    let mut x = Exchange::new(b'A', 0);
    let mut buf = [0u8; 4];
    assert_eq!(cmd(&mut x, &mut buf, None), Action::WriteHeader([b'A', 0, 0]));
    assert_eq!(cmd(&mut x, &mut buf, None), Action::Receive);
    assert_eq!(cmd(&mut x, &mut buf, None), Action::Done(None));
}
