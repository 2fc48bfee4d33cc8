use k210_camera::dvp::{ImageFormat, Op};
use k210_camera::server::log::{elapsed_ms, write_address, write_bmp_line, write_jpeg_line};
use k210_camera::server::session::{Session, Task};
use k210_camera::server::{
    accepted, configure_jpeg, configure_port, configure_res, joined, stage, warming_up, write_join,
    Config, Inbox, Plan, Poll, Server, Stage, Table,
};

fn bmp(restore: Option<usize>, resize: Option<usize>, res: usize, denoise: bool, expand565: bool) -> Plan {
    Plan::Bmp { restore, resize, res, denoise, expand565 }
}

#[test]
fn page_is_the_default() {
    let mut s = Server::new();
    assert_eq!(s.plan(b"GET / HTTP/1.1"), Plan::Page);
    assert_eq!(s.plan(b""), Plan::Page);
    assert_eq!(s.size(), (320, 240));
}

#[test]
fn paths_name_resolutions() {
    let mut s = Server::new();
    assert_eq!(s.plan(b"GET /qvga.bmp HTTP/1.1"), bmp(None, None, 1, false, false));
    assert_eq!(s.plan(b"GET /qqvga.bmp HTTP/1.1"), bmp(None, Some(0), 0, false, false));
    assert_eq!(s.size(), (160, 120));
    assert_eq!(s.plan(b"GET /vga.bmp?d=1&e=1 HTTP/1.1"), bmp(None, Some(2), 2, true, true));
    assert_eq!(s.size(), (640, 480));
    // The same again needs no set-up.
    assert_eq!(s.plan(b"GET /vga.bmp?e=1 HTTP/1.1"), bmp(None, None, 2, false, true));
}

#[test]
fn parameters_name_resolutions_too() {
    let mut s = Server::new();
    assert_eq!(s.plan(b"GET /cam.bmp?r=2 HTTP/1.1"), bmp(None, Some(2), 2, false, false));
    // Without a name the resolution stays.
    assert_eq!(s.plan(b"GET /cam.bmp HTTP/1.1"), bmp(None, None, 2, false, false));
    // The path comes first.
    assert_eq!(s.plan(b"GET /qqvga.bmp?r=1 HTTP/1.1"), bmp(None, Some(0), 0, false, false));
}

#[test]
fn jpeg_and_back() {
    let mut s = Server::new();
    assert_eq!(s.plan(b"GET /cam.jpg HTTP/1.1"), Plan::Jpeg { configure: true });
    assert_eq!(s.plan(b"GET /cam.bmp?j=1 HTTP/1.1"), Plan::Jpeg { configure: false });
    // The page leaves the camera alone.
    assert_eq!(s.plan(b"GET / HTTP/1.1"), Plan::Page);
    assert_eq!(s.plan(b"GET /x?r=1&j=1 HTTP/1.1"), Plan::Jpeg { configure: false });
    assert_eq!(s.plan(b"GET /vga.bmp HTTP/1.1"), bmp(Some(1), Some(2), 2, false, false));
    assert_eq!(s.plan(b"GET /vga.bmp HTTP/1.1"), bmp(None, None, 2, false, false));
}

#[test]
fn frames_are_counted() {
    let mut s = Server::new();
    assert_eq!(s.count_frame(), 1);
    assert_eq!(s.count_frame(), 2);
}

#[test]
fn set_ups_of_the_camera() {
    let rgb = |delta: Option<Table>, w: u16, h: u16| Config {
        table: Table::Baseline,
        delta,
        format: ImageFormat::Rgb,
        burst: false,
        w,
        h,
        warm_up_ms: 2000,
    };
    assert_eq!(configure_res(0), rgb(Some(Table::Qqvga), 160, 120));
    assert_eq!(configure_res(1), rgb(None, 320, 240));
    assert_eq!(configure_res(2), rgb(Some(Table::Vga), 640, 480));
    assert_eq!(
        configure_jpeg(),
        Config { table: Table::JpegQvga, ..rgb(None, 640, 480) }
    );
    assert!(warming_up(2000, 100, 2099));
    assert!(!warming_up(2000, 100, 2100));
}

#[test]
fn set_ups_are_done_in_stages() {
    let all = |c: Config| (0..5).map(|i| stage(c, i)).collect::<Vec<Stage>>();
    assert_eq!(
        all(configure_res(2)),
        vec![
            Stage::Apply(Table::Baseline),
            Stage::Apply(Table::Vga),
            Stage::Port,
            Stage::WarmUp(2000),
            Stage::Done,
        ]
    );
    assert_eq!(
        all(configure_res(1)),
        vec![Stage::Apply(Table::Baseline), Stage::Port, Stage::WarmUp(2000), Stage::Done, Stage::Done]
    );
    assert_eq!(all(configure_jpeg())[0], Stage::Apply(Table::JpegQvga));
    assert_eq!(stage(configure_jpeg(), usize::MAX), Stage::Done);
}

#[test]
fn set_ups_use_no_bursts() {
    let ops = |bursts: u8, lines: u16| {
        [Op::Format(ImageFormat::Rgb), Op::FourBeats(false), Op::Size { bursts, lines }]
    };
    assert_eq!(configure_port(configure_res(0)), ops(20, 120));
    assert_eq!(configure_port(configure_res(1)), ops(40, 240));
    assert_eq!(configure_port(configure_res(2)), ops(80, 480));
    assert_eq!(configure_port(configure_jpeg()), ops(80, 480));
    let bursts = Config { burst: true, ..configure_res(1) };
    assert_eq!(configure_port(bursts)[1..], [Op::FourBeats(true), Op::Size { bursts: 10, lines: 240 }]);
}

#[test]
fn joining_a_network() {
    let mut out = [0xFFu8; 16];
    let n = write_join(&mut out, b"home", b"word");
    assert_eq!(&out[..n], b"home\0word");
    assert_eq!(write_join(&mut out, b"", b""), 1);
    assert_eq!(out[0], 0);
    assert_eq!(joined(Some((b'I', 4)), &[192, 168, 0, 7, 9]), Some([192, 168, 0, 7]));
    assert_eq!(joined(Some((b'I', 3)), &[192, 168, 0, 7]), None);
    assert_eq!(joined(Some((b'E', 4)), &[192, 168, 0, 7]), None);
    assert_eq!(joined(None, &[]), None);
}

#[test]
fn accepting_a_client() {
    assert!(accepted(Some((b'A', 1)), &[1]));
    assert!(!accepted(Some((b'A', 1)), &[0]));
    assert!(!accepted(Some((b'A', 0)), &[]));
    assert!(!accepted(Some((b'O', 1)), &[1]));
    assert!(!accepted(None, &[]));
}

#[test]
fn request_is_received_in_parts() {
    let mut b = Inbox::new();
    let mut s = Server::new();
    assert_eq!(b.take(None, &[]), Poll::Again(12));
    assert_eq!(b.take(Some((b'R', 0)), &[]), Poll::Again(12));
    assert_eq!(b.take(Some((b'R', 9)), b"GET /vga.junk"), Poll::Again(12));
    assert_eq!(b.take(Some((b'R', 15)), b"bmp HTTP/1.1\r\n\r\n"), Poll::Enough);
    assert_eq!(b.plan(&mut s), bmp(None, Some(2), 2, false, false));
}

#[test]
fn request_is_cut_at_its_room() {
    let mut b = Inbox::new();
    let mut s = Server::new();
    let mut long = vec![b'x'; 252];
    long.extend(b".bmp.jpg");
    assert_eq!(b.take(Some((b'R', long.len())), &long), Poll::Enough);
    assert_eq!(b.plan(&mut s), bmp(None, None, 1, false, false));
}

#[test]
fn polls_end() {
    let mut b = Inbox::new();
    for _ in 0..23 {
        assert_eq!(b.take(None, &[]), Poll::Again(12));
    }
    assert_eq!(b.take(Some((b'R', 1)), b"G"), Poll::Last(12));
}

#[test]
fn session_serves_clients() {
    let mut s = Session::new();
    assert_eq!(s.next(None, &[]), Task::Command(b'C', 35000));
    assert_eq!(s.next(Some((b'I', 4)), &[10, 0, 0, 2]), Task::Announce([10, 0, 0, 2]));
    assert_eq!(s.next(None, &[]), Task::Command(b'L', 2000));
    // Whatever comes back.
    assert_eq!(s.next(None, &[]), Task::Command(b'A', 1500));
    assert_eq!(s.next(Some((b'A', 1)), &[0]), Task::Sleep(20));
    assert_eq!(s.next(None, &[]), Task::Command(b'A', 1500));
    assert_eq!(s.next(Some((b'A', 1)), &[1]), Task::Command(b'R', 1000));
    assert_eq!(s.next(Some((b'R', 5)), b"GET /"), Task::Sleep(12));
    assert_eq!(s.next(None, &[]), Task::Command(b'R', 1000));
    assert_eq!(
        s.next(Some((b'R', 20)), b"qqvga.bmp HTTP/1.1\r\n"),
        Task::Serve(bmp(None, Some(0), 0, false, false))
    );
    assert_eq!(s.size(), (160, 120));
    assert_eq!(s.count_frame(), 1);
    assert_eq!(s.next(None, &[]), Task::Command(b'X', 2000));
    assert_eq!(s.next(None, &[]), Task::Command(b'A', 1500));
    // A client that says nothing gets the page.
    assert_eq!(s.next(Some((b'A', 1)), &[1]), Task::Command(b'R', 1000));
    for _ in 0..23 {
        assert_eq!(s.next(None, &[]), Task::Sleep(12));
        assert_eq!(s.next(None, &[]), Task::Command(b'R', 1000));
    }
    assert_eq!(s.next(None, &[]), Task::Sleep(12));
    assert_eq!(s.next(None, &[]), Task::Serve(Plan::Page));
}

#[test]
fn session_halts_without_a_network() {
    let mut s = Session::new();
    s.next(None, &[]);
    assert_eq!(s.next(Some((b'E', 1)), &[6]), Task::Halt);
    assert_eq!(s.next(None, &[]), Task::Halt);
}

#[test]
fn lines_on_the_console() {
    let mut out = [0u8; 80];
    let n = write_address(&mut out, &[192, 168, 0, 7]);
    assert_eq!(&out[..n], b"http://192.168.0.7/\n");
    let n = write_bmp_line(&mut out, 12, 1, true, false, true, 230_541, 1020);
    assert_eq!(&out[..n], b"frame 12 r1 d1 e0 ok 230541B 1020ms\n");
    let n = write_bmp_line(&mut out, 13, 2, false, true, false, 1581, 9);
    assert_eq!(&out[..n], b"frame 13 r2 d0 e1 abort 1581B 9ms\n");
    let n = write_jpeg_line(&mut out, 1, true, 8192, 500);
    assert_eq!(&out[..n], b"frame 1 JPG 8192B 500ms\n");
    let n = write_jpeg_line(&mut out, 2, false, 0, 0);
    assert_eq!(&out[..n], b"frame 2 JPG-NOTFOUND 0B 0ms\n");
    assert_eq!(elapsed_ms(100, 350), 250);
    assert_eq!(elapsed_ms(u64::MAX, 1), 2);
    assert_eq!(elapsed_ms(0, 0x1_0000_0005), 5);
}
