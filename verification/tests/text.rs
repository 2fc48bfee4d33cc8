use k210_camera::creds::{parse_creds, Creds};
use k210_camera::http::{write_head, write_page, Content};
use k210_camera::query::{contains, flag, parse_digit};
use k210_camera::text::{append, le32, put_number, put_text, write_dec};

#[test]
fn decimals() {
    let cases: [(u32, &[u8]); 6] = [
        (0, b"0"),
        (9, b"9"),
        (10, b"10"),
        (230_454, b"230454"),
        (1_000_000_000, b"1000000000"),
        (u32::MAX, b"4294967295"),
    ];
    for &(v, digits) in &cases {
        let mut out = [b'x'; 12];
        let n = write_dec(&mut out, v);
        assert_eq!(&out[..n], digits);
        assert!(out[n..].iter().all(|&b| b == b'x'));
    }
}

#[test]
fn strings_are_appended() {
    let mut out = [0u8; 8];
    assert_eq!(append(&mut out, 2, b"abc"), 3);
    assert_eq!(&out, b"\0\0abc\0\0\0");
    assert_eq!(append(&mut out, 8, b""), 0);
    let n = put_text(&mut out, 0, "v=");
    let n = put_number(&mut out, n, 42);
    assert_eq!(&out[..n], b"v=42");
}

#[test]
fn little_endian_numbers() {
    let mut out = [9u8; 5];
    le32(&mut out, 0x1234_5678);
    assert_eq!(out, [0x78, 0x56, 0x34, 0x12, 9]);
}

#[test]
fn digits_of_parameters() {
    assert_eq!(parse_digit(b"GET /cam.bmp?r=2 HTTP", b"?r=", 1, 2), 2);
    assert_eq!(parse_digit(b"GET /cam.bmp?r=0&d=1", b"?r=", 1, 2), 0);
    // None.
    assert_eq!(parse_digit(b"GET /cam.bmp", b"?r=", 1, 2), 1);
    assert_eq!(parse_digit(b"?r=", b"?r=", 1, 2), 1);
    assert_eq!(parse_digit(b"?r", b"?r=", 1, 2), 1);
    assert_eq!(parse_digit(b"?r=x", b"?r=", 1, 2), 1);
    // Too large: clamped.
    assert_eq!(parse_digit(b"?r=9", b"?r=", 1, 2), 2);
    // The first one that is a digit.
    assert_eq!(parse_digit(b"?r=x?r=1?r=2", b"?r=", 0, 2), 1);
    assert_eq!(parse_digit(b"7", b"", 0, 9), 7);
}

#[test]
fn substrings() {
    assert!(contains(b"GET /qqvga.bmp", b".bmp"));
    assert!(contains(b"abc", b"abc"));
    assert!(contains(b"aab", b"ab"));
    assert!(!contains(b"ab", b"abc"));
    assert!(!contains(b"axbxc", b"abc"));
    // Every string contains the empty one.
    assert!(contains(b"abc", b"") && contains(b"", b""));
    assert!(!contains(b"", b"a"));
    // What contains a string contains its parts.
    assert!(contains(b"GET /qqvga.bmp", b"qqvga") && contains(b"GET /qqvga.bmp", b"qvga"));
}

#[test]
fn flags_come_first_or_later() {
    assert_eq!(flag(b"/vga.bmp?d=1", b"?d=", b"&d="), 1);
    assert_eq!(flag(b"/vga.bmp?e=1&d=1", b"?d=", b"&d="), 1);
    assert_eq!(flag(b"/vga.bmp?d=0", b"?d=", b"&d="), 0);
    assert_eq!(flag(b"/vga.bmp", b"?d=", b"&d="), 0);
}

#[test]
fn heads_of_responses() {
    let mut out = [0u8; 100];
    let n = write_head(&mut out, Content::Bmp, 230_454);
    assert_eq!(
        &out[..n],
        &b"HTTP/1.1 200 OK\r\nContent-Type: image/bmp\r\nContent-Length: 230454\r\nConnection: close\r\n\r\n"[..]
    );
    assert_eq!(n, 87);
    let n = write_head(&mut out, Content::Jpeg, 8192);
    assert_eq!(
        &out[..n],
        &b"HTTP/1.1 200 OK\r\nContent-Type: image/jpeg\r\nContent-Length: 8192\r\nConnection: close\r\n\r\n"[..]
    );
    assert_eq!(write_head(&mut out, Content::Jpeg, u32::MAX), 92);
    assert_eq!(write_head(&mut out, Content::Html, 0), 82);
}

#[test]
fn pages() {
    let mut out = [0u8; 128];
    let n = write_page(&mut out, b"<html></html>");
    assert_eq!(
        &out[..n],
        &b"HTTP/1.1 200 OK\r\nContent-Type: text/html\r\nContent-Length: 13\r\nConnection: close\r\n\r\n<html></html>"[..]
    );
}

fn creds(text: &str) -> (String, String) {
    let chars: Vec<char> = text.chars().collect();
    let Creds { ssid, pass } = parse_creds(&chars);
    (ssid.into_iter().collect(), pass.into_iter().collect())
}

fn pair(ssid: &str, pass: &str) -> (String, String) {
    (ssid.to_string(), pass.to_string())
}

#[test]
fn credentials_are_read() {
    assert_eq!(creds("WIFI_SSID=home\nWIFI_PASS=word\n"), pair("home", "word"));
    assert_eq!(creds("WIFI_SSID = \"my home\" \r\n\r\n WIFI_PASS=\"a=b#c\""), pair("my home", "a=b#c"));
    assert_eq!(creds("# WIFI_SSID=no\n  # no\nWIFI_PASS=x"), pair("", "x"));
}

#[test]
fn missing_credentials_are_empty() {
    assert_eq!(creds(""), pair("", ""));
    assert_eq!(creds("\n\n"), pair("", ""));
    assert_eq!(creds("WIFI_SSID\nwifi_pass=x\nWIFI_PASSWORD=y"), pair("", ""));
}

#[test]
fn last_line_of_a_name_counts() {
    assert_eq!(creds("WIFI_SSID=a\nWIFI_SSID=b\nWIFI_PASS=c"), pair("b", "c"));
    assert_eq!(creds("WIFI_SSID=a\nWIFI_SSID=\nWIFI_PASS=c"), pair("", "c"));
}

#[test]
fn quotes_and_unicode_space_are_stripped() {
    assert_eq!(creds("WIFI_SSID=\"\"caf\u{e9}\"\n\u{a0}WIFI_PASS\u{2003}=\u{3000}x\u{85}"), pair("caf\u{e9}", "x"));
    // Space within the quotes stays.
    assert_eq!(creds("WIFI_SSID=\" a \""), pair(" a ", ""));
}
