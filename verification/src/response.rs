//! Responses and their wire format.

use vstd::prelude::*;
use vstd::string::*;
use vstd::utf8::*;

use crate::ascii::{CR, LF};
use crate::status::{status_text, StatusCode};
use crate::text::{decimal, lemma_ascii_encoding, push_decimal};

verus! {

/// A response: a status, headers in the order in which they are sent, and an
/// optional text payload.
#[derive(Debug)]
pub struct Response {
    pub status_code: StatusCode,
    pub headers: Option<Vec<(String, String)>>,
    pub body: Option<String>,
}

/// What a response holds, as plain mathematical values.
pub struct ResponseView {
    pub status: u16,
    pub headers: Option<Seq<(Seq<char>, Seq<char>)>>,
    pub body: Option<Seq<char>>,
}

/// The header pairs as pairs of character sequences.
pub open spec fn header_views(headers: Seq<(String, String)>) -> Seq<(Seq<char>, Seq<char>)> {
    Seq::new(headers.len(), |i: int| (headers[i].0@, headers[i].1@))
}

impl View for Response {
    type V = ResponseView;

    open spec fn view(&self) -> ResponseView {
        ResponseView {
            status: self.status_code@,
            headers: match self.headers {
                Some(headers) => Some(header_views(headers@)),
                None => None,
            },
            body: match self.body {
                Some(body) => Some(body@),
                None => None,
            },
        }
    }
}

/// The status line: `HTTP/1.1`, the status and a CRLF.
pub open spec fn status_line(status: u16) -> Seq<char> {
    "HTTP/1.1 "@ + status_text(status) + "\r\n"@
}

/// One header line: the name, a colon and a space, the value and a CRLF.
pub open spec fn header_line(header: (Seq<char>, Seq<char>)) -> Seq<char> {
    header.0 + ": "@ + header.1 + "\r\n"@
}

/// The lines of the first `n` headers, in order.
pub open spec fn header_lines(headers: Seq<(Seq<char>, Seq<char>)>, n: int) -> Seq<char>
    decreases n,
{
    if n <= 0 {
        Seq::empty()
    } else {
        header_lines(headers, n - 1) + header_line(headers[n - 1])
    }
}

/// The end of the head and the payload. With a body: a `Content-Length`
/// header that gives the body's length in bytes, the blank line, and the
/// body. Without one: the blank line alone.
pub open spec fn payload(body: Option<Seq<char>>) -> Seq<char> {
    match body {
        Some(body) => "Content-Length: "@ + decimal(encode_utf8(body).len()) + "\r\n\r\n"@ + body,
        None => "\r\n"@,
    }
}

/// The whole response as text.
pub open spec fn wire_text(r: ResponseView) -> Seq<char> {
    let headers = match r.headers {
        Some(headers) => headers,
        None => Seq::empty(),
    };
    status_line(r.status) + header_lines(headers, headers.len() as int) + payload(r.body)
}

/// The whole response as the bytes that go on the wire.
pub open spec fn wire_bytes(r: ResponseView) -> Seq<u8> {
    encode_utf8(wire_text(r))
}

/// The encoding of a text made of two parts is the encoding of the first
/// followed by the encoding of the second.
pub proof fn lemma_encode_concat(a: Seq<char>, b: Seq<char>)
    ensures
        encode_utf8(a + b) == encode_utf8(a) + encode_utf8(b),
    decreases a.len(),
{
    if a.len() == 0 {
        assert(a + b =~= b);
        assert(encode_utf8(a) + encode_utf8(b) =~= encode_utf8(b));
    } else {
        lemma_encode_concat(a.drop_first(), b);
        assert((a + b).drop_first() =~= a.drop_first() + b);
        assert(encode_utf8(a + b) =~= encode_utf8(a) + encode_utf8(b));
    }
}

/// A CRLF in a text is the two bytes carriage return and line feed on the wire.
pub proof fn lemma_crlf_bytes()
    ensures
        encode_utf8("\r\n"@) == seq![CR, LF],
{
    reveal_strlit("\r\n");
    lemma_ascii_encoding("\r\n"@);
    assert(encode_utf8("\r\n"@) =~= seq![CR, LF]);
}

/// The header lines of the first `n` headers as bytes: for each header in
/// order its name, a colon and a space, its value, and a CRLF.
pub open spec fn header_bytes(headers: Seq<(Seq<char>, Seq<char>)>, n: int) -> Seq<u8>
    decreases n,
{
    if n <= 0 {
        Seq::empty()
    } else {
        header_bytes(headers, n - 1) + encode_utf8(headers[n - 1].0) + encode_utf8(": "@)
            + encode_utf8(headers[n - 1].1) + seq![CR, LF]
    }
}

/// The end of the head and the payload as bytes.
pub open spec fn payload_bytes(body: Option<Seq<char>>) -> Seq<u8> {
    match body {
        Some(body) => encode_utf8("Content-Length: "@) + encode_utf8(
            decimal(encode_utf8(body).len()),
        ) + seq![CR, LF, CR, LF] + encode_utf8(body),
        None => seq![CR, LF],
    }
}

proof fn lemma_header_bytes(headers: Seq<(Seq<char>, Seq<char>)>, n: int)
    requires
        0 <= n <= headers.len(),
    ensures
        encode_utf8(header_lines(headers, n)) == header_bytes(headers, n),
    decreases n,
{
    if n > 0 {
        lemma_header_bytes(headers, n - 1);
        let header = headers[n - 1];
        lemma_crlf_bytes();
        lemma_encode_concat(header_lines(headers, n - 1), header_line(header));
        lemma_encode_concat(header.0 + ": "@ + header.1, "\r\n"@);
        lemma_encode_concat(header.0 + ": "@, header.1);
        lemma_encode_concat(header.0, ": "@);
        assert(encode_utf8(header_lines(headers, n)) =~= header_bytes(headers, n));
    }
}

proof fn lemma_payload_bytes(body: Option<Seq<char>>)
    ensures
        encode_utf8(payload(body)) == payload_bytes(body),
{
    lemma_crlf_bytes();
    match body {
        Some(text) => {
            let length = decimal(encode_utf8(text).len());
            lemma_encode_concat("Content-Length: "@ + length + "\r\n\r\n"@, text);
            lemma_encode_concat("Content-Length: "@ + length, "\r\n\r\n"@);
            lemma_encode_concat("Content-Length: "@, length);
            reveal_strlit("\r\n\r\n");
            reveal_strlit("\r\n");
            assert("\r\n\r\n"@ =~= "\r\n"@ + "\r\n"@);
            lemma_encode_concat("\r\n"@, "\r\n"@);
            assert(encode_utf8("\r\n\r\n"@) =~= seq![CR, LF, CR, LF]);
        },
        None => {},
    }
}

/// The wire format, byte for byte: the status line, which is `HTTP/1.1 `, the
/// status text and one CRLF; one line for each header, in order, each ended
/// by one CRLF; then, with a body, the `Content-Length` line with the body's
/// length in bytes, one blank line and the body, and without one, the blank
/// line alone.
pub proof fn lemma_wire_format(response: ResponseView)
    ensures
        wire_bytes(response) == encode_utf8("HTTP/1.1 "@) + encode_utf8(
            status_text(response.status),
        ) + seq![CR, LF] + match response.headers {
            Some(headers) => header_bytes(headers, headers.len() as int),
            None => Seq::empty(),
        } + payload_bytes(response.body),
{
    let headers = match response.headers {
        Some(headers) => headers,
        None => Seq::empty(),
    };
    let lines = header_lines(headers, headers.len() as int);
    lemma_crlf_bytes();
    lemma_encode_concat(status_line(response.status) + lines, payload(response.body));
    lemma_encode_concat(status_line(response.status), lines);
    lemma_encode_concat("HTTP/1.1 "@ + status_text(response.status), "\r\n"@);
    lemma_encode_concat("HTTP/1.1 "@, status_text(response.status));
    lemma_header_bytes(headers, headers.len() as int);
    lemma_payload_bytes(response.body);
}

impl Response {
    /// A response of these parts.
    pub fn new(
        status_code: StatusCode,
        headers: Option<Vec<(String, String)>>,
        body: Option<String>,
    ) -> (r: Response)
        ensures
            r == (Response { status_code, headers, body }),
    {
        Response { status_code, headers, body }
    }

    /// Serializes the response as text.
    pub fn as_string(&self) -> (text: String)
        ensures
            text@ == wire_text(self@),
    {
        let mut text = String::new();
        text.append("HTTP/1.1 ");
        let status: String = self.status_code.as_string();
        text.append(status.as_str());
        text.append("\r\n");
        assert(text@ =~= status_line(self@.status));
        if let Some(headers) = &self.headers {
            let ghost views = header_views(headers@);
            let mut i: usize = 0;
            while i < headers.len()
                invariant
                    i <= headers.len(),
                    views == header_views(headers@),
                    text@ == status_line(self@.status) + header_lines(views, i as int),
                decreases headers.len() - i,
            {
                let ghost before = text@;
                text.append(headers[i].0.as_str());
                text.append(": ");
                text.append(headers[i].1.as_str());
                text.append("\r\n");
                assert(text@ =~= before + header_line(views[i as int]));
                i += 1;
                assert(text@ =~= status_line(self@.status) + header_lines(views, i as int));
            }
        }
        let ghost head = text@;
        match &self.body {
            Some(body) => {
                text.append("Content-Length: ");
                push_decimal(&mut text, body.as_str().as_bytes().len());
                text.append("\r\n\r\n");
                text.append(body.as_str());
            },
            None => {
                text.append("\r\n");
            },
        }
        assert(text@ =~= head + payload(self@.body));
        text
    }

    /// Serializes the response as the bytes that go on the wire.
    pub fn as_bytes(&self) -> (bytes: Vec<u8>)
        ensures
            bytes@ == wire_bytes(self@),
    {
        let text: String = self.as_string();
        text.as_str().as_bytes_vec()
    }
}

} // verus!
