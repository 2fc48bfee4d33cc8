//! The web server: what each request gets, and what the camera must be set to for it.

pub mod log;
pub mod session;

use vstd::prelude::*;
use vstd::slice::slice_subrange;

use crate::bytes::{lemma_splice_chain, splice};
use crate::dvp::{size_ops, Dvp, ImageFormat, Op};
use crate::query::{
    contains, digit_after, flag, flag_set, law_flag, law_occurs, law_occurs_transitive, occurs,
    occurs_at, parse_digit, reads, turned_on,
};
use crate::text::{ascii, bytes_of, put_bytes};

verus! {

/// Sizes of the largest frame.
pub const MAXW: usize = 640;

pub const MAXH: usize = 480;

/// Width and height of each resolution: QQVGA, QVGA, VGA.
pub const RES: [(usize, usize); 3] = [(160, 120), (320, 240), (640, 480)];

/// How long the sensor settles after it was set up, in milliseconds.
pub const WARM_UP_MS: u64 = 2000;

/// A table of register settings of the sensor.
#[derive(Clone, Copy, Debug, PartialEq, Eq, Structural)]
pub enum Table {
    /// Everything, for RGB565 at QVGA.
    Baseline,
    /// What differs from the baseline at QQVGA.
    Qqvga,
    /// What differs from the baseline at VGA.
    Vga,
    /// JPEG at QVGA.
    JpegQvga,
}

/// How to set up the camera.
#[derive(Clone, Copy, Debug, PartialEq, Eq, Structural)]
pub struct Config {
    /// The table to apply.
    pub table: Table,
    /// The table to apply on top of it.
    pub delta: Option<Table>,
    /// Format of the video port.
    pub format: ImageFormat,
    /// Write to memory in bursts of four beats.
    pub burst: bool,
    /// Size of the video port's frame.
    pub w: u16,
    pub h: u16,
    /// How long frames are captured and thrown away afterwards, in milliseconds.
    pub warm_up_ms: u64,
}

/// The set-up for a resolution. The baseline is applied each time, so that the order of changes does
/// not matter.
pub open spec fn res_config(r: int) -> Config {
    Config {
        table: Table::Baseline,
        delta: if r == 0 {
            Some(Table::Qqvga)
        } else if r == 2 {
            Some(Table::Vga)
        } else {
            None
        },
        format: ImageFormat::Rgb,
        burst: false,
        w: RES[r].0 as u16,
        h: RES[r].1 as u16,
        warm_up_ms: WARM_UP_MS,
    }
}

/// The set-up for JPEG: the port takes the byte stream as if it were the largest frame.
pub open spec fn jpeg_config() -> Config {
    Config {
        table: Table::JpegQvga,
        delta: None,
        format: ImageFormat::Rgb,
        burst: false,
        w: MAXW as u16,
        h: MAXH as u16,
        warm_up_ms: WARM_UP_MS,
    }
}

/// How to set up the camera for a resolution.
pub fn configure_res(r: usize) -> (c: Config)
    requires
        r < 3,
    ensures
        c == res_config(r as int),
{
    let (w, h) = RES[r];
    Config {
        table: Table::Baseline,
        delta: if r == 0 {
            Some(Table::Qqvga)
        } else if r == 2 {
            Some(Table::Vga)
        } else {
            None
        },
        format: ImageFormat::Rgb,
        burst: false,
        w: w as u16,
        h: h as u16,
        warm_up_ms: WARM_UP_MS,
    }
}

/// How to set up the camera for JPEG.
pub fn configure_jpeg() -> (c: Config)
    ensures
        c == jpeg_config(),
{
    Config {
        table: Table::JpegQvga,
        delta: None,
        format: ImageFormat::Rgb,
        burst: false,
        w: MAXW as u16,
        h: MAXH as u16,
        warm_up_ms: WARM_UP_MS,
    }
}

/// The accesses to the video port of a set-up.
pub open spec fn port_ops(c: Config) -> Seq<Op> {
    seq![Op::Format(c.format)] + size_ops(c.burst, c.w, c.h)
}

/// What the video port is set to in a set-up.
pub fn configure_port(c: Config) -> (ops: [Op; 3])
    ensures
        ops@ == port_ops(c),
{
    let dvp = Dvp::new();
    let size = dvp.set_image_size(c.burst, c.w, c.h);
    let ops = [dvp.set_image_format(c.format), size[0], size[1]];
    assert(ops@ =~= port_ops(c));
    ops
}

/// A stage of setting up the camera.
#[derive(Clone, Copy, Debug, PartialEq, Eq, Structural)]
pub enum Stage {
    /// Apply a table of register settings to the sensor.
    Apply(Table),
    /// Perform `configure_port`.
    Port,
    /// Capture frames and throw them away, for so many milliseconds.
    WarmUp(u64),
    /// The camera is set up.
    Done,
}

/// The stages of a set-up, in order.
pub open spec fn stages(c: Config) -> Seq<Stage> {
    let first = seq![Stage::Apply(c.table)];
    let tables = match c.delta {
        Some(t) => first.push(Stage::Apply(t)),
        None => first,
    };
    tables + seq![Stage::Port, Stage::WarmUp(c.warm_up_ms)]
}

/// Stage `i` of a set-up.
pub fn stage(c: Config, i: usize) -> (s: Stage)
    ensures
        s == if i < stages(c).len() {
            stages(c)[i as int]
        } else {
            Stage::Done
        },
{
    if i == 0 {
        return Stage::Apply(c.table);
    }
    let after: usize = match c.delta {
        Some(t) => {
            if i == 1 {
                return Stage::Apply(t);
            }
            2
        },
        None => 1,
    };
    if i == after {
        Stage::Port
    } else if i == after + 1 {
        Stage::WarmUp(c.warm_up_ms)
    } else {
        Stage::Done
    }
}

/// Whether frames are still to be thrown away at millisecond `now`, where a warm-up of `ms`
/// milliseconds began at millisecond `start`.
pub fn warming_up(ms: u64, start: u64, now: u64) -> (on: bool)
    requires
        start + ms <= u64::MAX,
    ensures
        on == (now < start + ms),
{
    now < start + ms
}

/// The payload of the command that joins a network.
pub open spec fn join_payload(ssid: Seq<u8>, pass: Seq<u8>) -> Seq<u8> {
    ssid + seq![0u8] + pass
}

/// Write the payload of the command that joins a network to the front of `out`. Returns its length.
pub fn write_join(out: &mut [u8], ssid: &[u8], pass: &[u8]) -> (n: usize)
    requires
        join_payload(ssid@, pass@).len() <= old(out)@.len(),
    ensures
        final(out)@ == splice(old(out)@, 0, join_payload(ssid@, pass@)),
        n == join_payload(ssid@, pass@).len(),
{
    broadcast use lemma_splice_chain;

    let zero: [u8; 1] = [0];
    assert(zero@ =~= seq![0u8]);
    let n: usize = put_bytes(out, 0, ssid);
    let n: usize = put_bytes(out, n, &zero);
    put_bytes(out, n, pass)
}

/// The address that joining a network gave, or `None` if it failed: a reply `I` of four bytes.
pub fn joined(got: Option<(u8, usize)>, reply: &[u8]) -> (ip: Option<[u8; 4]>)
    requires
        got == Some((0x49u8, 4usize)) ==> reply@.len() >= 4,
    ensures
        match ip {
            Some(ip) => got == Some((0x49u8, 4usize)) && ip@ == reply@.take(4),
            None => got != Some((0x49u8, 4usize)),
        },
{
    match got {
        Some((tag, n)) => if tag == 0x49 && n == 4 {
            let ip = [reply[0], reply[1], reply[2], reply[3]];
            assert(ip@ =~= reply@.take(4));
            Some(ip)
        } else {
            None
        },
        None => None,
    }
}

/// A client is there: a reply `A` whose first byte is 1.
pub open spec fn client_there(got: Option<(u8, usize)>, reply: Seq<u8>) -> bool {
    match got {
        Some((tag, n)) => tag == 0x41 && n >= 1 && reply[0] == 1,
        None => false,
    }
}

/// Whether a client is there.
pub fn accepted(got: Option<(u8, usize)>, reply: &[u8]) -> (r: bool)
    requires
        got matches Some((_, n)) ==> n <= reply@.len(),
    ensures
        r == client_there(got, reply@),
{
    match got {
        Some((tag, n)) => tag == 0x41 && n >= 1 && reply[0] == 1,
        None => false,
    }
}

/// Room for a request.
pub const REQUEST: usize = 256;

/// Length from which on a request says enough.
pub const ENOUGH: usize = 24;

/// How often a request is asked for.
pub const POLLS: usize = 24;

/// Pause between two polls, in milliseconds.
pub const POLL_MS: u64 = 12;

/// A request being received.
pub struct Inbox {
    req: [u8; 256],
    len: usize,
    polls: usize,
}

/// What came back for a poll carries some of the request.
pub open spec fn carries(got: Option<(u8, usize)>) -> bool {
    match got {
        Some((tag, n)) => tag == 0x52 && n > 0,
        None => false,
    }
}

/// How many bytes of the request came back for a poll.
pub open spec fn carried(got: Option<(u8, usize)>) -> int {
    match got {
        Some((_, n)) => n as int,
        None => 0,
    }
}

/// The first bytes of a string, as many as there is room for.
pub open spec fn cut(s: Seq<u8>) -> Seq<u8> {
    if s.len() <= REQUEST {
        s
    } else {
        s.take(REQUEST as int)
    }
}

/// What was received of a request after a poll.
pub open spec fn request_after(
    request: Seq<u8>,
    got: Option<(u8, usize)>,
    reply: Seq<u8>,
) -> Seq<u8> {
    if carries(got) {
        cut(request + reply.take(carried(got)))
    } else {
        request
    }
}

/// What to do after a poll.
#[derive(Clone, Copy, Debug, PartialEq, Eq, Structural)]
pub enum Poll {
    /// The request says enough.
    Enough,
    /// Wait for so many milliseconds, and poll again.
    Again(u64),
    /// Wait for so many milliseconds, and take what there is.
    Last(u64),
}

/// What to do after a poll that carried something or not, where `len` bytes were received with
/// `polls` polls.
pub open spec fn poll_step(carried_some: bool, len: int, polls: int) -> Poll {
    if carried_some && len >= ENOUGH {
        Poll::Enough
    } else if polls < POLLS {
        Poll::Again(POLL_MS)
    } else {
        Poll::Last(POLL_MS)
    }
}

impl Inbox {
    /// What was received of the request.
    pub closed spec fn request(self) -> Seq<u8> {
        self.req@.take(self.len as int)
    }

    /// Polls that were made.
    pub closed spec fn polls(self) -> int {
        self.polls as int
    }

    /// The request fits.
    pub closed spec fn wf(self) -> bool {
        &&& self.len <= REQUEST
        &&& self.polls <= POLLS
    }

    /// Nothing was received yet.
    pub fn new() -> (b: Inbox)
        ensures
            b.wf(),
            b.request() == Seq::<u8>::empty(),
            b.polls() == 0,
    {
        let b = Inbox { req: [0; 256], len: 0, polls: 0 };
        assert(b.request() =~= Seq::empty());
        b
    }

    /// Take what came back for a poll (a reply's tag and length, its payload in `reply`).
    pub fn take(&mut self, got: Option<(u8, usize)>, reply: &[u8]) -> (poll: Poll)
        requires
            old(self).wf(),
            old(self).polls() < POLLS,
            got matches Some((_, n)) ==> n <= reply@.len(),
        ensures
            final(self).wf(),
            final(self).polls() == old(self).polls() + 1,
            final(self).request() == request_after(old(self).request(), got, reply@),
            poll == poll_step(
                carries(got),
                final(self).request().len() as int,
                final(self).polls(),
            ),
    {
        self.polls = self.polls + 1;
        match got {
            Some((tag, n)) => {
                if tag == 0x52 && n > 0 {
                    let ghost was = self.request();
                    let mut i: usize = 0;
                    assert(reply@.take(0) =~= Seq::empty());
                    assert(was =~= cut(was + reply@.take(0)));
                    while i < n
                        invariant
                            i <= n <= reply@.len(),
                            self.len <= REQUEST,
                            self.polls <= POLLS,
                            self.polls == old(self).polls + 1,
                            was.len() <= REQUEST,
                            self.request() == cut(was + reply@.take(i as int)),
                        decreases n - i,
                    {
                        let ghost before = was + reply@.take(i as int);
                        let ghost held = self.request();
                        assert(held.len() == self.len);
                        if self.len < REQUEST {
                            self.req[self.len] = reply[i];
                            self.len = self.len + 1;
                            assert(self.request() =~= held.push(reply@[i as int]));
                        }
                        i = i + 1;
                        assert(was + reply@.take(i as int) =~= before.push(reply@[i - 1]));
                        assert(self.request() =~= cut(was + reply@.take(i as int)));
                    }
                    if self.len >= ENOUGH {
                        return Poll::Enough;
                    }
                }
            },
            None => {},
        }
        if self.polls < POLLS {
            Poll::Again(POLL_MS)
        } else {
            Poll::Last(POLL_MS)
        }
    }
}

impl Inbox {
    /// What the request gets from a server.
    pub fn plan(&self, server: &mut Server) -> (plan: Plan)
        requires
            self.wf(),
            old(server).wf(),
        ensures
            final(server).wf(),
            final(server).frames() == old(server).frames(),
            plan == plan_of(self.request(), old(server).res(), old(server).jpeg()),
            (final(server).res(), final(server).jpeg()) == state_after(
                self.request(),
                old(server).res(),
                old(server).jpeg(),
            ),
    {
        let all: &[u8] = &self.req;
        let rs: &[u8] = slice_subrange(all, 0, self.len);
        assert(rs@ =~= self.request());
        server.plan(rs)
    }
}

/// The request asks for a JPEG file.
pub open spec fn asks_jpeg(rs: Seq<u8>) -> bool {
    occurs(rs, ascii(".jpg"@)) || flag_set(rs, ascii("?j="@), ascii("&j="@))
}

/// The request asks for a BMP file.
pub open spec fn asks_bmp(rs: Seq<u8>) -> bool {
    occurs(rs, ascii(".bmp"@))
}

/// The request asks for denoising.
pub open spec fn asks_denoise(rs: Seq<u8>) -> bool {
    flag_set(rs, ascii("?d="@), ascii("&d="@))
}

/// The request asks for the pixels to go out as RGB565.
pub open spec fn asks_rgb565(rs: Seq<u8>) -> bool {
    flag_set(rs, ascii("?e="@), ascii("&e="@))
}

/// The resolution that the request names, by its path or else by its parameter; the current one if
/// it names none.
pub open spec fn asked_res(rs: Seq<u8>, current: usize) -> usize {
    if occurs(rs, ascii("qqvga"@)) {
        0
    } else if occurs(rs, ascii("qvga"@)) {
        1
    } else if occurs(rs, ascii("vga"@)) {
        2
    } else {
        digit_after(rs, ascii("?r="@), current, 2)
    }
}

/// What a request gets.
#[derive(Clone, Copy, Debug, PartialEq, Eq, Structural)]
pub enum Plan {
    /// A JPEG file from the sensor's own encoder.
    Jpeg {
        /// Set the camera up for JPEG first.
        configure: bool,
    },
    /// A BMP file.
    Bmp {
        /// Bring the camera back from JPEG to this resolution first.
        restore: Option<usize>,
        /// Then set it up for this resolution.
        resize: Option<usize>,
        /// The resolution.
        res: usize,
        /// Capture three frames and denoise; else capture one.
        denoise: bool,
        /// Send the pixels as RGB565.
        expand565: bool,
    },
    /// The page.
    Page,
}

/// What a request gets, where the camera is set up for the resolution `res`, or for JPEG.
pub open spec fn plan_of(rs: Seq<u8>, res: usize, jpeg: bool) -> Plan {
    if asks_jpeg(rs) {
        Plan::Jpeg { configure: !jpeg }
    } else if asks_bmp(rs) {
        let asked = asked_res(rs, res);
        Plan::Bmp {
            restore: if jpeg {
                Some(res)
            } else {
                None
            },
            resize: if asked != res {
                Some(asked)
            } else {
                None
            },
            res: asked,
            denoise: asks_denoise(rs),
            expand565: asks_rgb565(rs),
        }
    } else {
        Plan::Page
    }
}

/// The resolution, and whether the camera is set up for JPEG, after a request.
pub open spec fn state_after(rs: Seq<u8>, res: usize, jpeg: bool) -> (usize, bool) {
    if asks_jpeg(rs) {
        (res, true)
    } else if asks_bmp(rs) {
        (asked_res(rs, res), false)
    } else {
        (res, jpeg)
    }
}

/// What the server remembers from one request to the next.
pub struct Server {
    res: usize,
    jpeg: bool,
    frames: u32,
}

impl Server {
    /// The resolution.
    pub closed spec fn res(self) -> usize {
        self.res
    }

    /// The camera is set up for JPEG.
    pub closed spec fn jpeg(self) -> bool {
        self.jpeg
    }

    /// Frames that were served.
    pub closed spec fn frames(self) -> u32 {
        self.frames
    }

    /// The resolution is one there is.
    pub closed spec fn wf(self) -> bool {
        self.res < 3
    }

    /// A server whose camera is set up for QVGA.
    pub fn new() -> (s: Server)
        ensures
            s.wf(),
            s.res() == 1,
            !s.jpeg(),
            s.frames() == 0,
    {
        Server { res: 1, jpeg: false, frames: 0 }
    }

    /// Width and height of the current resolution.
    pub fn size(&self) -> (wh: (usize, usize))
        requires
            self.wf(),
        ensures
            wh == RES[self.res() as int],
            0 < wh.0 <= MAXW,
            0 < wh.1 <= MAXH,
    {
        RES[self.res]
    }

    /// What the request `rs` gets. The camera counts as set up for it afterwards.
    pub fn plan(&mut self, rs: &[u8]) -> (plan: Plan)
        requires
            old(self).wf(),
        ensures
            final(self).wf(),
            final(self).frames() == old(self).frames(),
            plan == plan_of(rs@, old(self).res(), old(self).jpeg()),
            (final(self).res(), final(self).jpeg()) == state_after(
                rs@,
                old(self).res(),
                old(self).jpeg(),
            ),
    {
        proof {
            lemma_names();
        }
        let is_jpg = contains(rs, bytes_of(".jpg")) || flag(rs, bytes_of("?j="), bytes_of("&j="))
            == 1;
        let is_bmp = contains(rs, bytes_of(".bmp"));
        if is_jpg {
            let configure = !self.jpeg;
            self.jpeg = true;
            return Plan::Jpeg { configure };
        }
        if !is_bmp {
            return Plan::Page;
        }
        let restore = if self.jpeg {
            Some(self.res)
        } else {
            None
        };
        self.jpeg = false;
        let res: usize = if contains(rs, bytes_of("qqvga")) {
            0
        } else if contains(rs, bytes_of("qvga")) {
            1
        } else if contains(rs, bytes_of("vga")) {
            2
        } else {
            parse_digit(rs, bytes_of("?r="), self.res, 2)
        };
        let denoise = flag(rs, bytes_of("?d="), bytes_of("&d=")) == 1;
        let expand565 = flag(rs, bytes_of("?e="), bytes_of("&e=")) == 1;
        let resize = if res != self.res {
            Some(res)
        } else {
            None
        };
        self.res = res;
        Plan::Bmp { restore, resize, res, denoise, expand565 }
    }

    /// Frames that were served.
    pub fn frames_served(&self) -> (n: u32)
        ensures
            n == self.frames(),
    {
        self.frames
    }

    /// Count a frame. Returns its number.
    pub fn count_frame(&mut self) -> (n: u32)
        requires
            old(self).wf(),
            old(self).frames() < u32::MAX,
        ensures
            final(self).wf(),
            final(self).frames() == old(self).frames() + 1,
            final(self).res() == old(self).res(),
            final(self).jpeg() == old(self).jpeg(),
            n == final(self).frames(),
    {
        self.frames = self.frames + 1;
        self.frames
    }
}

/// The names that a request is searched for.
proof fn lemma_names()
    ensures
        vstd::utf8::is_ascii_chars(".jpg"@) && ".jpg"@.len() == 4,
        vstd::utf8::is_ascii_chars(".bmp"@) && ".bmp"@.len() == 4,
        vstd::utf8::is_ascii_chars("qqvga"@) && "qqvga"@.len() == 5,
        vstd::utf8::is_ascii_chars("qvga"@) && "qvga"@.len() == 4,
        vstd::utf8::is_ascii_chars("vga"@) && "vga"@.len() == 3,
        vstd::utf8::is_ascii_chars("?j="@),
        vstd::utf8::is_ascii_chars("&j="@),
        vstd::utf8::is_ascii_chars("?r="@),
        vstd::utf8::is_ascii_chars("?d="@),
        vstd::utf8::is_ascii_chars("&d="@),
        vstd::utf8::is_ascii_chars("?e="@),
        vstd::utf8::is_ascii_chars("&e="@),
{
    reveal_strlit(".jpg");
    reveal_strlit(".bmp");
    reveal_strlit("qqvga");
    reveal_strlit("qvga");
    reveal_strlit("vga");
    reveal_strlit("?j=");
    reveal_strlit("&j=");
    reveal_strlit("?r=");
    reveal_strlit("?d=");
    reveal_strlit("&d=");
    reveal_strlit("?e=");
    reveal_strlit("&e=");
}

/// Each name of a resolution stands in the one before: they must be looked for in this order.
pub proof fn law_names_nested(rs: Seq<u8>)
    ensures
        occurs(rs, ascii("qqvga"@)) ==> occurs(rs, ascii("qvga"@)),
        occurs(rs, ascii("qvga"@)) ==> occurs(rs, ascii("vga"@)),
{
    reveal_strlit("qqvga");
    reveal_strlit("qvga");
    reveal_strlit("vga");
    let a = ascii("qqvga"@);
    let b = ascii("qvga"@);
    let c = ascii("vga"@);
    assert(a.subrange(1, 5) =~= b);
    assert(occurs_at(a, 1, b));
    assert(b.subrange(1, 4) =~= c);
    assert(occurs_at(b, 1, c));
    if occurs(rs, a) {
        law_occurs_transitive(rs, a, b);
    }
    if occurs(rs, b) {
        law_occurs_transitive(rs, b, c);
    }
}

/// The resolution asked for is one there is, whatever the request says.
pub proof fn law_asked_res(rs: Seq<u8>, current: usize)
    requires
        current < 3,
    ensures
        asked_res(rs, current) < 3,
{
}

/// A further frame of the same resolution needs no set-up of the camera.
pub proof fn law_no_needless_setup(rs: Seq<u8>, res: usize)
    requires
        !asks_jpeg(rs),
        asks_bmp(rs),
        asked_res(rs, res) == res,
    ensures
        plan_of(rs, res, false) matches Plan::Bmp { restore, resize, .. } && restore is None
            && resize is None,
{
}

/// What the camera is set up for.
#[derive(Clone, Copy, Debug, PartialEq, Eq, Structural)]
pub enum Camera {
    Rgb(usize),
    Jpeg,
}

/// What the camera is set up for as far as the server remembers.
pub open spec fn camera(res: usize, jpeg: bool) -> Camera {
    if jpeg {
        Camera::Jpeg
    } else {
        Camera::Rgb(res)
    }
}

/// What the camera is set up for once the set-up that a plan wants was done.
pub open spec fn set_up(plan: Plan, before: Camera) -> Camera {
    match plan {
        Plan::Jpeg { configure } => if configure {
            Camera::Jpeg
        } else {
            before
        },
        Plan::Bmp { restore, resize, .. } => {
            let first = match restore {
                Some(r) => Camera::Rgb(r),
                None => before,
            };
            match resize {
                Some(r) => Camera::Rgb(r),
                None => first,
            }
        },
        Plan::Page => before,
    }
}

/// A plan sets the camera up for what it serves, and what the server remembers stays true.
pub proof fn law_camera_follows(rs: Seq<u8>, res: usize, jpeg: bool)
    ensures
        set_up(plan_of(rs, res, jpeg), camera(res, jpeg)) == ({
            let (r, j) = state_after(rs, res, jpeg);
            camera(r, j)
        }),
        asks_jpeg(rs) ==> set_up(plan_of(rs, res, jpeg), camera(res, jpeg)) == Camera::Jpeg,
        !asks_jpeg(rs) && asks_bmp(rs) ==> set_up(plan_of(rs, res, jpeg), camera(res, jpeg))
            == Camera::Rgb(asked_res(rs, res)),
{
}

/// Setting the camera up for a resolution does not depend on what it was set up for: every set-up
/// starts from the whole baseline or the whole JPEG table. The frame has the size of the resolution.
pub proof fn law_setup_from_scratch(r: int)
    requires
        0 <= r < 3,
    ensures
        stages(res_config(r))[0] == Stage::Apply(Table::Baseline),
        stages(jpeg_config())[0] == Stage::Apply(Table::JpegQvga),
        res_config(r).w == RES[r].0,
        res_config(r).h == RES[r].1,
        RES[r].0 <= MAXW,
        RES[r].1 <= MAXH,
{
}

/// Every set-up sets the video port to RGB without bursts, and then ends with the warm-up.
pub proof fn law_setup_warms_up(r: int)
    requires
        0 <= r < 3,
    ensures
        stages(res_config(r)).skip(stages(res_config(r)).len() - 2) == seq![
            Stage::Port,
            Stage::WarmUp(WARM_UP_MS),
        ],
        stages(jpeg_config()).skip(stages(jpeg_config()).len() - 2) == seq![
            Stage::Port,
            Stage::WarmUp(WARM_UP_MS),
        ],
        port_ops(res_config(r)) == seq![Op::Format(ImageFormat::Rgb)] + size_ops(
            false,
            RES[r].0 as u16,
            RES[r].1 as u16,
        ),
        port_ops(jpeg_config()) == seq![Op::Format(ImageFormat::Rgb)] + size_ops(
            false,
            MAXW as u16,
            MAXH as u16,
        ),
{
    let end = seq![Stage::Port, Stage::WarmUp(WARM_UP_MS)];
    assert(stages(res_config(r)).skip(stages(res_config(r)).len() - 2) =~= end);
    assert(stages(jpeg_config()).skip(stages(jpeg_config()).len() - 2) =~= end);
}

/// A request names something: its text contains it.
pub open spec fn names(rs: Seq<u8>, text: Seq<char>) -> bool {
    exists|i: int| reads(rs, i, ascii(text))
}

/// A flag stands in a request, first (`?`) or later (`&`), and its digit is not 0.
pub open spec fn has_flag(rs: Seq<u8>, first: Seq<char>, later: Seq<char>) -> bool {
    turned_on(rs, ascii(first)) || turned_on(rs, ascii(later))
}

/// A request gets a JPEG file if it names `.jpg` or has the flag `j`; else a BMP file if it names
/// `.bmp`; else the page. What was served before does not matter.
pub proof fn law_plan_kind(rs: Seq<u8>, res: usize, jpeg: bool)
    ensures
        plan_of(rs, res, jpeg) is Jpeg <==> names(rs, ".jpg"@) || has_flag(rs, "?j="@, "&j="@),
        plan_of(rs, res, jpeg) is Bmp <==> names(rs, ".bmp"@) && !(names(rs, ".jpg"@) || has_flag(
            rs,
            "?j="@,
            "&j="@,
        )),
{
    law_occurs(rs, ascii(".jpg"@));
    law_occurs(rs, ascii(".bmp"@));
    law_flag(rs, ascii("?j="@), ascii("&j="@));
}

/// A BMP file is denoised exactly if the request has the flag `d`, and sent as RGB565 exactly if it
/// has the flag `e`. Neither depends on the other, on the resolution or on the camera.
pub proof fn law_plan_flags(rs: Seq<u8>, res: usize, jpeg: bool)
    ensures
        plan_of(rs, res, jpeg) matches Plan::Bmp { denoise, expand565, .. } ==> {
            &&& denoise == has_flag(rs, "?d="@, "&d="@)
            &&& expand565 == has_flag(rs, "?e="@, "&e="@)
        },
{
    law_flag(rs, ascii("?d="@), ascii("&d="@));
    law_flag(rs, ascii("?e="@), ascii("&e="@));
}

/// The resolution is the one that the request names, the longest name first; else its parameter `r`;
/// else the one there was.
pub proof fn law_asked_by_name(rs: Seq<u8>, current: usize)
    ensures
        names(rs, "qqvga"@) ==> asked_res(rs, current) == 0,
        !names(rs, "qqvga"@) && names(rs, "qvga"@) ==> asked_res(rs, current) == 1,
        !names(rs, "qvga"@) && names(rs, "vga"@) ==> asked_res(rs, current) == 2,
        !names(rs, "vga"@) ==> asked_res(rs, current) == digit_after(
            rs,
            ascii("?r="@),
            current,
            2,
        ),
{
    law_occurs(rs, ascii("qqvga"@));
    law_occurs(rs, ascii("qvga"@));
    law_occurs(rs, ascii("vga"@));
    law_names_nested(rs);
}

/// The camera is brought back from JPEG to the resolution there was before anything else, and set up
/// anew exactly if the request asks for another resolution. A JPEG file needs a set-up exactly if the
/// camera was not yet set up for one.
pub proof fn law_plan_setup(rs: Seq<u8>, res: usize, jpeg: bool)
    ensures
        plan_of(rs, res, jpeg) matches Plan::Bmp { restore, resize, res: now, .. } ==> {
            &&& now == asked_res(rs, res)
            &&& restore == if jpeg {
                Some(res)
            } else {
                None::<usize>
            }
            &&& resize == if now == res {
                None::<usize>
            } else {
                Some(now)
            }
            &&& state_after(rs, res, jpeg) == (now, false)
        },
        plan_of(rs, res, jpeg) matches Plan::Jpeg { configure } ==> {
            &&& configure != jpeg
            &&& state_after(rs, res, jpeg) == (res, true)
        },
        plan_of(rs, res, jpeg) is Page ==> state_after(rs, res, jpeg) == (res, jpeg),
{
}

/// The set-ups, table by table, and the sizes of the resolutions.
pub proof fn law_set_ups()
    ensures
        stages(res_config(0)) == seq![
            Stage::Apply(Table::Baseline),
            Stage::Apply(Table::Qqvga),
            Stage::Port,
            Stage::WarmUp(2000),
        ],
        stages(res_config(1)) == seq![
            Stage::Apply(Table::Baseline),
            Stage::Port,
            Stage::WarmUp(2000),
        ],
        stages(res_config(2)) == seq![
            Stage::Apply(Table::Baseline),
            Stage::Apply(Table::Vga),
            Stage::Port,
            Stage::WarmUp(2000),
        ],
        stages(jpeg_config()) == seq![
            Stage::Apply(Table::JpegQvga),
            Stage::Port,
            Stage::WarmUp(2000),
        ],
        (res_config(0).w, res_config(0).h) == (160u16, 120u16),
        (res_config(1).w, res_config(1).h) == (320u16, 240u16),
        (res_config(2).w, res_config(2).h) == (640u16, 480u16),
        (jpeg_config().w, jpeg_config().h) == (640u16, 480u16),
{
    assert(stages(res_config(0)) =~= seq![
        Stage::Apply(Table::Baseline),
        Stage::Apply(Table::Qqvga),
        Stage::Port,
        Stage::WarmUp(2000),
    ]);
    assert(stages(res_config(1)) =~= seq![
        Stage::Apply(Table::Baseline),
        Stage::Port,
        Stage::WarmUp(2000),
    ]);
    assert(stages(res_config(2)) =~= seq![
        Stage::Apply(Table::Baseline),
        Stage::Apply(Table::Vga),
        Stage::Port,
        Stage::WarmUp(2000),
    ]);
    assert(stages(jpeg_config()) =~= seq![
        Stage::Apply(Table::JpegQvga),
        Stage::Port,
        Stage::WarmUp(2000),
    ]);
}

/// The name of a network goes out first, and behind a zero byte the password.
pub proof fn law_join_payload(ssid: Seq<u8>, pass: Seq<u8>)
    ensures
        join_payload(ssid, pass).len() == ssid.len() + 1 + pass.len(),
        join_payload(ssid, pass).take(ssid.len() as int) == ssid,
        join_payload(ssid, pass)[ssid.len() as int] == 0,
        join_payload(ssid, pass).skip(ssid.len() as int + 1) == pass,
{
    assert(join_payload(ssid, pass).take(ssid.len() as int) =~= ssid);
    assert(join_payload(ssid, pass).skip(ssid.len() as int + 1) =~= pass);
}

/// A client is there exactly when a reply `A` begins with 1.
pub proof fn law_client_there(tag: u8, n: usize, reply: Seq<u8>)
    ensures
        client_there(Some((tag, n)), reply) <==> tag == 65 && n >= 1 && reply[0] == 1,
        !client_there(None, reply),
{
}

/// What a reply `R` carries is put behind what was received of a request, up to 256 bytes in all;
/// any other reply adds nothing.
pub proof fn law_request_grows(request: Seq<u8>, tag: u8, n: usize, reply: Seq<u8>, i: int)
    requires
        request.len() <= 256,
        n <= reply.len(),
    ensures
        ({
            let after = request_after(request, Some((tag, n)), reply);
            let more: int = if tag == 82 {
                n as int
            } else {
                0
            };
            &&& after.len() == if request.len() + more <= 256 {
                request.len() + more
            } else {
                256
            }
            &&& 0 <= i < request.len() ==> after[i] == request[i]
            &&& request.len() <= i < after.len() ==> after[i] == reply[i - request.len()]
        }),
        request_after(request, None, reply) == request,
{
}

/// A request is polled for every 12 ms until a poll brings it to 24 bytes or more, and 24 times at
/// most.
pub proof fn law_polling(carried_some: bool, len: int, polls: int)
    ensures
        poll_step(carried_some, len, polls) is Enough <==> carried_some && len >= 24,
        poll_step(carried_some, len, polls) matches Poll::Again(ms) ==> ms == 12 && polls < 24,
        poll_step(carried_some, len, polls) matches Poll::Last(ms) ==> ms == 12 && polls >= 24,
{
}

/// A reply carries some of a request exactly when it is an `R` with at least one byte.
pub proof fn law_carries(tag: u8, n: usize)
    ensures
        carries(Some((tag, n))) <==> tag == 82 && n > 0,
        carried(Some((tag, n))) == n,
        !carries(None),
{
}

/// The resolutions.
pub proof fn law_resolutions()
    ensures
        RES@ == seq![(160usize, 120usize), (320usize, 240usize), (640usize, 480usize)],
        (MAXW, MAXH) == (640usize, 480usize),
{
    assert(RES@ =~= seq![(160usize, 120usize), (320usize, 240usize), (640usize, 480usize)]);
}

/// What `Server::plan` returns and remembers, from the text of the request and what was remembered.
pub proof fn law_plan(server: &mut Server, rs: &[u8], plan: Plan)
    requires
        call_ensures(Server::plan, (server, rs), plan),
    ensures
        plan is Jpeg <==> names(rs@, ".jpg"@) || has_flag(rs@, "?j="@, "&j="@),
        !(plan is Jpeg) ==> (plan is Bmp <==> names(rs@, ".bmp"@)),
        plan matches Plan::Jpeg { configure } ==> configure != old(server).jpeg()
            && final(server).jpeg() && final(server).res() == old(server).res(),
        plan matches Plan::Bmp { restore, resize, res, denoise, expand565 } ==> {
            &&& denoise == has_flag(rs@, "?d="@, "&d="@)
            &&& expand565 == has_flag(rs@, "?e="@, "&e="@)
            &&& names(rs@, "qqvga"@) ==> res == 0
            &&& !names(rs@, "qqvga"@) && names(rs@, "qvga"@) ==> res == 1
            &&& !names(rs@, "qvga"@) && names(rs@, "vga"@) ==> res == 2
            &&& restore is Some <==> old(server).jpeg()
            &&& restore matches Some(r) ==> r == old(server).res()
            &&& resize is Some <==> res != old(server).res()
            &&& resize matches Some(r) ==> r == res
            &&& final(server).res() == res
            &&& !final(server).jpeg()
        },
        plan is Page ==> final(server).res() == old(server).res() && final(server).jpeg() == old(
            server,
        ).jpeg(),
        final(server).frames() == old(server).frames(),
{
    let (res, jpeg) = (old(server).res(), old(server).jpeg());
    law_plan_kind(rs@, res, jpeg);
    law_plan_flags(rs@, res, jpeg);
    law_asked_by_name(rs@, res);
    law_plan_setup(rs@, res, jpeg);
}

/// What `Inbox::take` does: the bytes of a reply `R` join the request, up to 256 in all, and polling
/// goes on until they are 24 or more, or 24 polls were made.
pub proof fn law_take(
    inbox: &mut Inbox,
    tag: u8,
    n: usize,
    reply: &[u8],
    poll: Poll,
    i: int,
)
    requires
        n <= reply@.len(),
        old(inbox).request().len() <= 256,
        call_ensures(Inbox::take, (inbox, Some((tag, n)), reply), poll),
    ensures
        ({
            let (was, is) = (old(inbox).request(), final(inbox).request());
            let more: int = if tag == 82 {
                n as int
            } else {
                0
            };
            &&& is.len() == if was.len() + more <= 256 {
                was.len() + more
            } else {
                256
            }
            &&& 0 <= i < was.len() ==> is[i] == was[i]
            &&& was.len() <= i < is.len() ==> is[i] == reply@[i - was.len()]
            &&& poll is Enough <==> tag == 82 && n > 0 && is.len() >= 24
            &&& final(inbox).polls() == old(inbox).polls() + 1
            &&& poll is Last <==> !(poll is Enough) && final(inbox).polls() >= 24
        }),
{
    law_request_grows(old(inbox).request(), tag, n, reply@, i);
}

/// What `write_join` writes: the name of the network, a zero byte, and the password.
pub proof fn law_write_join(out: &mut [u8], ssid: &[u8], pass: &[u8], n: usize)
    requires
        ssid@.len() + 1 + pass@.len() <= old(out)@.len(),
        old(out)@.len() <= usize::MAX,
        call_ensures(write_join, (out, ssid, pass), n),
    ensures
        n == ssid@.len() + 1 + pass@.len(),
        final(out)@.take(n as int) == ssid@ + seq![0u8] + pass@,
        final(out)@.skip(n as int) == old(out)@.skip(n as int),
{
    assert(final(out)@.take(n as int) =~= ssid@ + seq![0u8] + pass@);
    assert(final(out)@.skip(n as int) =~= old(out)@.skip(n as int));
}

} // verus!
