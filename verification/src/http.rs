//! Heads of HTTP responses.

use vstd::prelude::*;

use crate::bytes::{lemma_splice_chain, splice};
use crate::text::{ascii, digits, law_digits, lemma_digits_u32, number, put_bytes, put_number, put_text};

verus! {

/// What a response carries.
#[derive(Clone, Copy, Debug, PartialEq, Eq, Structural)]
pub enum Content {
    Html,
    Bmp,
    Jpeg,
}

impl Content {
    /// The media type.
    pub open spec fn name(self) -> Seq<char> {
        match self {
            Content::Html => "text/html"@,
            Content::Bmp => "image/bmp"@,
            Content::Jpeg => "image/jpeg"@,
        }
    }
}

/// The head of a response of `len` bytes.
pub open spec fn head(content: Content, len: u32) -> Seq<u8> {
    ascii("HTTP/1.1 200 OK\r\nContent-Type: "@) + ascii(content.name()) + ascii(
        "\r\nContent-Length: "@,
    ) + digits(len as nat) + ascii("\r\nConnection: close\r\n\r\n"@)
}

/// A response that carries the page `html`.
pub open spec fn page_response(html: Seq<u8>) -> Seq<u8> {
    head(Content::Html, html.len() as u32) + html
}

/// A head has at least 82 and at most 92 bytes.
pub proof fn lemma_head_len(content: Content, len: u32)
    ensures
        81 + digits(len as nat).len() <= head(content, len).len() <= 82 + digits(len as nat).len(),
        82 <= head(content, len).len() <= 92,
{
    reveal_strlit("HTTP/1.1 200 OK\r\nContent-Type: ");
    reveal_strlit("text/html");
    reveal_strlit("image/bmp");
    reveal_strlit("image/jpeg");
    reveal_strlit("\r\nContent-Length: ");
    reveal_strlit("\r\nConnection: close\r\n\r\n");
    lemma_digits_u32(len);
}

/// Write the head of a response of `len` bytes to the front of `out`. Returns its length.
pub fn write_head(out: &mut [u8], content: Content, len: u32) -> (n: usize)
    requires
        head(content, len).len() <= old(out)@.len(),
    ensures
        final(out)@ == splice(old(out)@, 0, head(content, len)),
        n == head(content, len).len(),
{
    broadcast use lemma_splice_chain;

    proof {
        reveal_strlit("HTTP/1.1 200 OK\r\nContent-Type: ");
        reveal_strlit("text/html");
        reveal_strlit("image/bmp");
        reveal_strlit("image/jpeg");
        reveal_strlit("\r\nContent-Length: ");
        reveal_strlit("\r\nConnection: close\r\n\r\n");
    }
    let name: &str = match content {
        Content::Html => "text/html",
        Content::Bmp => "image/bmp",
        Content::Jpeg => "image/jpeg",
    };
    let n: usize = put_text(out, 0, "HTTP/1.1 200 OK\r\nContent-Type: ");
    let n: usize = put_text(out, n, name);
    let n: usize = put_text(out, n, "\r\nContent-Length: ");
    let n: usize = put_number(out, n, len);
    let n: usize = put_text(out, n, "\r\nConnection: close\r\n\r\n");
    n
}

/// Write the whole response that carries `html` to the front of `out`. Returns its length.
pub fn write_page(out: &mut [u8], html: &[u8]) -> (n: usize)
    requires
        page_response(html@).len() <= old(out)@.len(),
    ensures
        final(out)@ == splice(old(out)@, 0, page_response(html@)),
        n == page_response(html@).len(),
{
    broadcast use lemma_splice_chain;

    let n: usize = write_head(out, Content::Html, html.len() as u32);
    put_bytes(out, n, html)
}

/// A head names the media type and the length of what follows it, in decimal.
pub proof fn law_head(len: u32, count: Seq<u8>)
    requires
        count == digits(len as nat),
    ensures
        number(count) == len,
        head(Content::Html, len) == ascii(
            "HTTP/1.1 200 OK\r\nContent-Type: text/html\r\nContent-Length: "@,
        ) + count + ascii("\r\nConnection: close\r\n\r\n"@),
        head(Content::Bmp, len) == ascii(
            "HTTP/1.1 200 OK\r\nContent-Type: image/bmp\r\nContent-Length: "@,
        ) + count + ascii("\r\nConnection: close\r\n\r\n"@),
        head(Content::Jpeg, len) == ascii(
            "HTTP/1.1 200 OK\r\nContent-Type: image/jpeg\r\nContent-Length: "@,
        ) + count + ascii("\r\nConnection: close\r\n\r\n"@),
{
    law_digits(len as nat);
    reveal_strlit("HTTP/1.1 200 OK\r\nContent-Type: ");
    reveal_strlit("text/html");
    reveal_strlit("image/bmp");
    reveal_strlit("image/jpeg");
    reveal_strlit("\r\nContent-Length: ");
    reveal_strlit("HTTP/1.1 200 OK\r\nContent-Type: text/html\r\nContent-Length: ");
    reveal_strlit("HTTP/1.1 200 OK\r\nContent-Type: image/bmp\r\nContent-Length: ");
    reveal_strlit("HTTP/1.1 200 OK\r\nContent-Type: image/jpeg\r\nContent-Length: ");
    let first = ascii("HTTP/1.1 200 OK\r\nContent-Type: "@);
    let second = ascii("\r\nContent-Length: "@);
    assert(first + ascii("text/html"@) + second =~= ascii(
        "HTTP/1.1 200 OK\r\nContent-Type: text/html\r\nContent-Length: "@,
    ));
    assert(first + ascii("image/bmp"@) + second =~= ascii(
        "HTTP/1.1 200 OK\r\nContent-Type: image/bmp\r\nContent-Length: "@,
    ));
    assert(first + ascii("image/jpeg"@) + second =~= ascii(
        "HTTP/1.1 200 OK\r\nContent-Type: image/jpeg\r\nContent-Length: "@,
    ));
}

/// A response with a page ends with the whole page, behind a head that names its length.
pub proof fn law_page_response(html: Seq<u8>)
    requires
        html.len() <= u32::MAX,
    ensures
        page_response(html) == head(Content::Html, html.len() as u32) + html,
        page_response(html).skip(page_response(html).len() - html.len()) == html,
{
    assert(page_response(html).skip(page_response(html).len() - html.len()) =~= html);
}

/// What `write_page` writes: a head that names the length of the page, and the whole page.
pub proof fn law_write_page(out: &mut [u8], html: &[u8], n: usize)
    requires
        html@.len() <= u32::MAX,
        92 + html@.len() <= old(out)@.len() <= usize::MAX,
        call_ensures(write_page, (out, html), n),
    ensures
        final(out)@.take(n as int) == head(Content::Html, html@.len() as u32) + html@,
        final(out)@.skip(n as int) == old(out)@.skip(n as int),
{
    lemma_head_len(Content::Html, html@.len() as u32);
    assert(final(out)@.take(n as int) =~= page_response(html@));
    assert(final(out)@.skip(n as int) =~= old(out)@.skip(n as int));
}

} // verus!
