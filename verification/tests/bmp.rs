use k210_camera::bmp::{fill_chunk, write_preamble, Serving, Step};
use k210_camera::capture::{self, copy_bytes, find_jpeg, serve_jpeg, swap_words, Delivery, Served};
use k210_camera::pipe::{send_all, Flush, Pipe, Push, CHUNK, WINDOW};
use k210_camera::uart_wifi::{CMD_SEND, CMD_SEND565};

fn serve(fb: &[u32], w: usize, h: usize, expand565: bool) -> (Vec<(u8, Vec<u8>)>, u32) {
    let mut s = Serving::new(w, h, expand565);
    let mut buf = [0u8; CHUNK];
    let mut frames = Vec::new();
    loop {
        match s.serve_bmp(fb, &mut buf, true) {
            Step::Push { cmd, len } => frames.push((cmd, buf[..len].to_vec())),
            Step::Flush => return (frames, s.bytes_sent()),
            Step::Abort => panic!("nothing failed"),
        }
    }
}

fn body(frames: &[(u8, Vec<u8>)]) -> Vec<u8> {
    frames[1..].iter().flat_map(|f| f.1.clone()).collect()
}

fn expand(rgb565: &[u8]) -> Vec<u8> {
    let mut out = Vec::new();
    for p in rgb565.chunks(2) {
        let px = p[0] as u32 | ((p[1] as u32) << 8);
        out.push(((px & 0x1f) << 3) as u8);
        out.push((((px >> 5) & 0x3f) << 2) as u8);
        out.push((((px >> 11) & 0x1f) << 3) as u8);
    }
    out
}

#[test]
fn preamble_of_a_qvga_frame() {
    let mut out = [0xEEu8; 182];
    let n = write_preamble(&mut out, 320, 240);
    assert_eq!(n, 141);
    assert!(out[..n].starts_with(b"HTTP/1.1 200 OK\r\nContent-Type: image/bmp\r\nContent-Length: 230454\r\n"));
    let h = &out[87..141];
    assert_eq!(&h[..2], b"BM");
    assert_eq!(&h[2..6], &230_454u32.to_le_bytes());
    assert_eq!(&h[6..10], &[0; 4]);
    assert_eq!(&h[10..14], &54u32.to_le_bytes());
    assert_eq!(&h[14..18], &40u32.to_le_bytes());
    assert_eq!(&h[18..22], &320u32.to_le_bytes());
    assert_eq!(&h[22..26], &240u32.to_le_bytes());
    assert_eq!(&h[26..34], &[1, 0, 24, 0, 0, 0, 0, 0]);
    assert_eq!(&h[34..38], &230_400u32.to_le_bytes());
    assert_eq!(&h[38..], &[0; 16]);
    assert_eq!(out[141], 0xEE);
}

#[test]
fn frame_goes_out_bottom_row_first() {
    // 2 x 2: red, green over blue, white.
    let fb = [0x07E0_F800u32, 0xFFFF_001F];
    let (frames, sent) = serve(&fb, 2, 2, false);
    assert_eq!(frames.len(), 2);
    assert_eq!((frames[0].0, frames[1].0), (CMD_SEND, CMD_SEND));
    assert_eq!(
        frames[1].1,
        vec![0xF8, 0, 0, 0xF8, 0xFC, 0xF8, 0, 0, 0xF8, 0, 0xFC, 0]
    );
    assert_eq!(sent as usize, frames[0].1.len() + 12);
    let (frames, _) = serve(&fb, 2, 2, true);
    assert_eq!(frames[1], (CMD_SEND565, vec![0x1F, 0, 0xFF, 0xFF, 0, 0xF8, 0xE0, 0x07]));
}

#[test]
fn bytes_over_the_link() {
    let fb = vec![0u32; 320 * 240 / 2];
    assert_eq!(serve(&fb, 320, 240, false).1, 230_541);
    assert_eq!(serve(&fb, 320, 240, true).1, 153_741);
    let fb = vec![0u32; 640 * 480 / 2];
    assert_eq!(serve(&fb, 640, 480, true).1, 614_541);
}

#[test]
fn chunks_are_full_but_the_last() {
    let mut fb = Vec::new();
    for i in 0..160 * 120 / 2 {
        fb.push((i as u32).wrapping_mul(0x9E37_79B9));
    }
    let (frames, _) = serve(&fb, 160, 120, false);
    assert_eq!(frames.len(), 1 + 40);
    assert!(frames[1..].iter().all(|f| f.1.len() == CHUNK));
    let (short, _) = serve(&fb, 160, 120, true);
    assert_eq!(short.len(), 1 + 27);
    assert_eq!(short[27].1.len(), 38_400 - 26 * CHUNK);
    // RGB565 loses nothing, and saves a third.
    let (long, short) = (body(&frames), body(&short));
    assert_eq!(long, expand(&short));
    assert_eq!(2 * long.len(), 3 * short.len());
    // Header and pixels have the declared length.
    assert_eq!(54 + long.len(), 57_654);
}

#[test]
fn chunk_in_the_middle() {
    let fb = [0x0002_0001u32, 0x0004_0003];
    let mut out = [9u8; CHUNK];
    assert_eq!(fill_chunk(&fb, 4, 1, true, 4, &mut out), 4);
    assert_eq!(&out[..5], &[3, 0, 4, 0, 9]);
    assert_eq!(fill_chunk(&fb, 4, 1, true, 8, &mut out), 0);
}

#[test]
fn failure_stops_all_but_the_first_chunk() {
    let fb = vec![0u32; 160 * 120 / 2];
    let mut s = Serving::new(160, 120, false);
    let mut buf = [0u8; CHUNK];
    assert!(matches!(s.serve_bmp(&fb, &mut buf, true), Step::Push { .. }));
    // The pipeline is looked at after a chunk, not after the preamble.
    assert!(matches!(s.serve_bmp(&fb, &mut buf, false), Step::Push { .. }));
    assert_eq!(s.serve_bmp(&fb, &mut buf, false), Step::Abort);
    // After the last chunk there is only the flush.
    let mut s = Serving::new(2, 2, false);
    s.serve_bmp(&fb, &mut buf, true);
    s.serve_bmp(&fb, &mut buf, true);
    assert_eq!(s.serve_bmp(&fb, &mut buf, false), Step::Flush);
}

#[test]
fn window_of_a_pipeline() {
    let mut p = Pipe::new();
    assert_eq!(WINDOW, 2);
    assert_eq!(p.push(), Push::Send);
    assert_eq!(p.push(), Push::Send);
    assert_eq!(p.push(), Push::Ack);
    assert!(p.ack(Some((b'S', 2)), &[0, 5]));
    assert_eq!(p.push(), Push::Send);
    assert_eq!(p.push(), Push::Ack);
    assert_eq!(p.flush(true), Flush::Ack);
    assert!(p.ack(Some((b'S', 2)), &[1, 0]));
    assert_eq!(p.flush(true), Flush::Ack);
    assert!(p.ack(Some((b'S', 2)), &[1, 0]));
    assert_eq!(p.flush(true), Flush::Done(true));
}

#[test]
fn pipeline_fails_for_good() {
    // The client is gone.
    let mut p = Pipe::new();
    p.push();
    assert!(!p.ack(Some((b'S', 2)), &[0, 0]));
    assert!(!p.is_ok());
    assert_eq!(p.push(), Push::Drop);
    assert_eq!(p.flush(true), Flush::Done(false));
    // No reply, another reply, a short reply.
    for got in [None, Some((b'E', 2)), Some((b'S', 1))] {
        let mut p = Pipe::new();
        p.push();
        p.push();
        assert!(!p.ack(got, &[1, 1]));
        assert_eq!(p.push(), Push::Drop);
        assert_eq!(p.flush(true), Flush::Ack);
        // A later acknowledgement does not mend it.
        assert!(!p.ack(Some((b'S', 2)), &[1, 1]));
        assert_eq!(p.flush(false), Flush::Done(false));
    }
    // A failure with nothing in flight.
    let mut p = Pipe::new();
    assert!(!p.ack(None, &[]));
    assert_eq!(p.flush(true), Flush::Done(false));
}

#[test]
fn strings_are_cut_into_chunks() {
    let mut ends = Vec::new();
    let mut off = 0;
    while let Some(end) = send_all(3000, off) {
        ends.push(end);
        off = end;
    }
    assert_eq!(ends, vec![1440, 2880, 3000]);
    assert_eq!(send_all(1440, 0), Some(1440));
    assert_eq!(send_all(0, 0), None);
}

#[test]
fn words_are_swapped() {
    let mut w = [0x1234_5678u32, 0xFFD8_0000];
    swap_words(&mut w);
    assert_eq!(w, [0x7856_3412, 0x0000_D8FF]);
    swap_words(&mut w);
    assert_eq!(w, [0x1234_5678, 0xFFD8_0000]);
}

#[test]
fn captured_file_is_found() {
    // Big-endian: 00 FF D8 01 | FF 02 FF D9 | FF D9 00 00
    let mut w = [0x00FF_D801u32, 0xFF02_FFD9, 0xFFD9_0000];
    let mut hdr = [0u8; 96];
    let s = serve_jpeg(&mut w, &mut hdr).unwrap();
    assert_eq!((s.start, s.len), (1, 7));
    assert_eq!(
        &hdr[..s.head],
        &b"HTTP/1.1 200 OK\r\nContent-Type: image/jpeg\r\nContent-Length: 7\r\nConnection: close\r\n\r\n"[..]
    );
    let mut out = [0u8; 8];
    copy_bytes(&w, s.start, s.len, &mut out);
    assert_eq!(&out, &[0xFF, 0xD8, 0x01, 0xFF, 0x02, 0xFF, 0xD9, 0]);
}

#[test]
fn no_captured_file() {
    let mut hdr = [7u8; 96];
    // No start; a start and no end; an end before the start.
    for w in [[0x0000_0000u32, 0xFFD9_0000], [0xFFD8_0000, 0x0000_00FF], [0xFFD9_00FF, 0xD800_0000]] {
        let mut w = w;
        assert_eq!(serve_jpeg(&mut w, &mut hdr), None);
        assert_eq!(hdr, [7u8; 96]);
    }
    assert_eq!(find_jpeg(&[]), None);
    // The end may not share a byte with the start.
    let mut w = [0xFFD8_D900u32];
    assert_eq!(serve_jpeg(&mut w, &mut hdr), None);
    let mut w = [0xFFD8_FFD9u32];
    swap_words(&mut w);
    assert_eq!(find_jpeg(&w), Some((0, 4)));
}

#[test]
fn captured_file_follows_an_accepted_head() {
    let served = Some(Served { head: 83, start: 1, len: 7 });
    let done = capture::Step::Done { found: true, len: 7 };
    let mut d = Delivery::new(served);
    assert_eq!(d.first(), capture::Step::Head { len: 83 });
    assert_eq!(d.next(true), capture::Step::File { start: 1, len: 7 });
    assert_eq!(d.next(false), done);
    let mut d = Delivery::new(served);
    assert_eq!(d.next(false), done);
    let mut d = Delivery::new(served);
    d.next(true);
    assert_eq!(d.next(true), done);
    assert_eq!(Delivery::new(None).first(), capture::Step::Done { found: false, len: 0 });
}
