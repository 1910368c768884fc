//! Framing of a response: status line, headers and the (possibly compressed) body.

use vstd::prelude::*;
use crate::number::decimal_string;
use crate::text::{contains, contains_str, decimal};
use crate::wrappers::{gzip, gzip_of};

verus! {

broadcast use vstd::string::group_string_axioms;

/// A response ready to be written: the head first, then the body.
pub struct Response {
    /// Status line and header lines, up to and including the empty line.
    pub head: String,
    /// The bytes that follow the head.
    pub body: Vec<u8>,
}

/// The views of name and value pairs.
pub open spec fn pair_views(v: Seq<(String, String)>) -> Seq<(Seq<char>, Seq<char>)> {
    v.map_values(|p: (String, String)| (p.0@, p.1@))
}

/// One `name: value` line for each extra header, in order.
pub open spec fn header_lines(extra: Seq<(Seq<char>, Seq<char>)>) -> Seq<char>
    decreases extra.len(),
{
    if extra.len() == 0 {
        Seq::empty()
    } else {
        header_lines(extra.drop_last()) + extra.last().0 + ": "@ + extra.last().1 + "\r\n"@
    }
}

/// The head of a response: status line, `Content-Type`, `Content-Encoding: gzip` when the body
/// is compressed, `Content-Length`, the extra headers, and the empty line.
pub open spec fn response_head(
    code: Seq<char>,
    message: Seq<char>,
    content_type: Seq<char>,
    gzipped: bool,
    length: nat,
    extra: Seq<(Seq<char>, Seq<char>)>,
) -> Seq<char> {
    "HTTP/1.1 "@ + code + " "@ + message + "\r\nContent-Type: "@ + content_type + "\r\n"@ + (if gzipped {
        "Content-Encoding: gzip\r\n"@
    } else {
        Seq::empty()
    }) + "Content-Length: "@ + decimal(length) + "\r\n"@ + header_lines(extra) + "\r\n"@
}

/// Whether the client accepts a gzip-compressed body.
pub open spec fn accepts_gzip(accept_encoding: Seq<char>) -> bool {
    contains(accept_encoding, "gzip"@)
}

/// The body as it goes out: compressed where the client accepts gzip.
pub open spec fn encoded(body: Seq<u8>, accept_encoding: Seq<char>) -> Seq<u8> {
    if accepts_gzip(accept_encoding) {
        gzip_of(body)
    } else {
        body
    }
}

/// The head of the answer with `body`.
pub open spec fn answer_head(
    code: Seq<char>,
    message: Seq<char>,
    content_type: Seq<char>,
    body: Seq<u8>,
    accept_encoding: Seq<char>,
    extra: Seq<(Seq<char>, Seq<char>)>,
) -> Seq<char> {
    response_head(
        code,
        message,
        content_type,
        accepts_gzip(accept_encoding),
        encoded(body, accept_encoding).len(),
        extra,
    )
}

/// The bytes sent after the head of the answer with `body`: none unless `send_body`.
pub open spec fn answer_body(body: Seq<u8>, accept_encoding: Seq<char>, send_body: bool) -> Seq<u8> {
    if send_body {
        encoded(body, accept_encoding)
    } else {
        Seq::empty()
    }
}

/// The extra header lines.
fn header_lines_string(extra_headers: &Vec<(String, String)>) -> (r: String)
    ensures
        r@ == header_lines(pair_views(extra_headers@)),
{
    let mut out = String::new();
    let mut i: usize = 0;
    assert(pair_views(extra_headers@).take(0) =~= Seq::<(Seq<char>, Seq<char>)>::empty());
    while i < extra_headers.len()
        invariant
            i <= extra_headers@.len(),
            out@ == header_lines(pair_views(extra_headers@).take(i as int)),
        decreases extra_headers.len() - i,
    {
        let ghost taken = pair_views(extra_headers@).take(i + 1);
        assert(taken.drop_last() =~= pair_views(extra_headers@).take(i as int));
        assert(taken.last() == (extra_headers@[i as int].0@, extra_headers@[i as int].1@));
        out.append(extra_headers[i].0.as_str());
        out.append(": ");
        out.append(extra_headers[i].1.as_str());
        out.append("\r\n");
        assert(out@ =~= header_lines(taken));
        i = i + 1;
    }
    assert(pair_views(extra_headers@).take(i as int) =~= pair_views(extra_headers@));
    out
}

/// Frames a response around a body that is already encoded as it will be sent.
pub fn assemble_response(
    status_code: &str,
    status_message: &str,
    content_type: &str,
    encoded_body: Vec<u8>,
    gzipped: bool,
    extra_headers: &Vec<(String, String)>,
    send_body: bool,
) -> (r: Response)
    ensures
        r.head@ == response_head(
            status_code@,
            status_message@,
            content_type@,
            gzipped,
            encoded_body@.len(),
            pair_views(extra_headers@),
        ),
        r.body@ == (if send_body {
            encoded_body@
        } else {
            Seq::empty()
        }),
{
    let mut head = String::new();
    head.append("HTTP/1.1 ");
    head.append(status_code);
    head.append(" ");
    head.append(status_message);
    head.append("\r\nContent-Type: ");
    head.append(content_type);
    head.append("\r\n");
    if gzipped {
        head.append("Content-Encoding: gzip\r\n");
    }
    head.append("Content-Length: ");
    let length = decimal_string(encoded_body.len());
    head.append(length.as_str());
    head.append("\r\n");
    let lines = header_lines_string(extra_headers);
    head.append(lines.as_str());
    head.append("\r\n");
    assert(head@ =~= response_head(
        status_code@,
        status_message@,
        content_type@,
        gzipped,
        encoded_body@.len(),
        pair_views(extra_headers@),
    ));
    let body = if send_body {
        encoded_body
    } else {
        Vec::new()
    };
    Response { head, body }
}

/// The answer with `body`: compressed with gzip when `accept_encoding` mentions gzip, framed
/// with status line and headers; the body bytes are kept only when `send_body`.
pub fn respond_with_body(
    status_code: &str,
    status_message: &str,
    content_type: &str,
    body: &[u8],
    accept_encoding: &str,
    extra_headers: &Vec<(String, String)>,
    send_body: bool,
) -> (r: Response)
    ensures
        r.head@ == answer_head(
            status_code@,
            status_message@,
            content_type@,
            body@,
            accept_encoding@,
            pair_views(extra_headers@),
        ),
        r.body@ == answer_body(body@, accept_encoding@, send_body),
{
    if contains_str(accept_encoding, "gzip") {
        assemble_response(
            status_code,
            status_message,
            content_type,
            gzip(body),
            true,
            extra_headers,
            send_body,
        )
    } else {
        assemble_response(
            status_code,
            status_message,
            content_type,
            vstd::slice::slice_to_vec(body),
            false,
            extra_headers,
            send_body,
        )
    }
}

} // verus!
