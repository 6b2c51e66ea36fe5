//! Requests and the grammar by which they are read off the wire.
//!
//! A request is a start line, header lines and a blank line, each ended
//! by CRLF, and then as many bytes of body as its `Content-Length` header
//! announces. [`parsed`] says what a byte sequence holds under that grammar;
//! [`Request::parse`] computes it.

use vstd::prelude::*;
use vstd::slice::*;
use vstd::string::*;
use vstd::utf8::*;

use crate::ascii::{
    find_byte, find_line_end, lemma_line_end_from, lemma_split, length_value, line_end,
    lowercase, parse_length, position, same_bytes, split, to_lowercase, trim, trimmed, COLON,
    SPACE,
};
use crate::headers::Headers;
use crate::text::{decode, decoded, same_text};

verus! {

/// The methods that are served.
#[derive(Debug, Clone, Copy, PartialEq, Eq, Structural)]
pub enum Method {
    GET,
    POST,
}

/// Why a byte sequence is not a request.
#[derive(Debug, Clone, Copy, PartialEq, Eq, Structural)]
pub enum ParseError {
    /// The start line is not made of three tokens of text with single spaces between them.
    InvalidStartLine,
    /// The method is neither `GET` nor `POST`.
    UnsupportedMethod,
    /// A `Content-Length` header does not hold a length.
    InvalidContentLength,
    /// The bytes end before the request does.
    IncompleteRequest,
}

/// A request as it was read.
#[derive(Debug)]
pub struct Request {
    pub method: Method,
    /// The request target as it was given.
    pub path: String,
    pub version: String,
    /// The headers by their lower-case names, or nothing if none was sent.
    pub headers: Option<Headers>,
    /// The body, where a `Content-Length` greater than zero announced one.
    pub body: Option<Vec<u8>>,
}

/// What a request holds, as plain mathematical values.
pub struct RequestView {
    pub method: Method,
    pub path: Seq<char>,
    pub version: Seq<char>,
    pub headers: Option<Map<Seq<char>, Seq<char>>>,
    pub body: Option<Seq<u8>>,
}

impl View for Request {
    type V = RequestView;

    open spec fn view(&self) -> RequestView {
        RequestView {
            method: self.method,
            path: self.path@,
            version: self.version@,
            headers: match self.headers {
                Some(headers) => Some(headers@),
                None => None,
            },
            body: match self.body {
                Some(body) => Some(body@),
                None => None,
            },
        }
    }
}

/// The three tokens of a start line.
pub struct StartLine {
    pub method: Seq<char>,
    pub path: Seq<char>,
    pub version: Seq<char>,
}

/// What has been gathered from the header lines read so far.
pub struct HeadView {
    pub headers: Map<Seq<char>, Seq<char>>,
    pub content_length: nat,
}

/// The method that a token names, whatever the case of its letters.
pub open spec fn method_of(token: Seq<char>) -> Option<Method> {
    let folded = lowercase(encode_utf8(token));
    if folded == encode_utf8("get"@) {
        Some(Method::GET)
    } else if folded == encode_utf8("post"@) {
        Some(Method::POST)
    } else {
        None
    }
}

/// The tokens of a start line: single spaces part the line into exactly
/// three tokens, and each of them is valid UTF-8.
pub open spec fn start_line(line: Seq<u8>) -> Option<StartLine> {
    let tokens = split(line, SPACE);
    if tokens.len() == 3 {
        match (decoded(tokens[0]), decoded(tokens[1]), decoded(tokens[2])) {
            (Some(method), Some(path), Some(version)) => Some(
                StartLine { method, path, version },
            ),
            _ => None,
        }
    } else {
        None
    }
}

/// The name that a header line gives before its colon at `colon`: trimmed,
/// then in lower case.
pub open spec fn header_name(line: Seq<u8>, colon: int) -> Seq<u8> {
    lowercase(trimmed(line.take(colon)))
}

/// The value that a header line gives after its colon at `colon`: trimmed.
pub open spec fn header_value(line: Seq<u8>, colon: int) -> Seq<u8> {
    trimmed(line.skip(colon + 1))
}

/// What is gathered once one more header line is read.
///
/// A line without a colon changes nothing. Otherwise the line is parted at
/// its first colon into a name and a value. Where both are valid UTF-8 the
/// header is recorded, in place of an earlier one of that name. Where the name
/// is `content-length`, the value must be a length, which becomes the length
/// of the body.
pub open spec fn with_header_line(head: HeadView, line: Seq<u8>) -> Result<HeadView, ParseError> {
    match position(line, COLON) {
        None => Ok(head),
        Some(colon) => {
            let name = decoded(header_name(line, colon));
            let value = decoded(header_value(line, colon));
            let headers = match (name, value) {
                (Some(name), Some(value)) => head.headers.insert(name, value),
                _ => head.headers,
            };
            if name == Some("content-length"@) {
                match length_value(header_value(line, colon)) {
                    Some(content_length) => Ok(HeadView { headers, content_length }),
                    None => Err(ParseError::InvalidContentLength),
                }
            } else {
                Ok(HeadView { headers, content_length: head.content_length })
            }
        },
    }
}

/// What the header lines at the start of `input` add to `head`, and the bytes
/// that follow the blank line which ends them.
pub open spec fn head_of(input: Seq<u8>, head: HeadView) -> Result<(HeadView, Seq<u8>), ParseError>
    decreases input.len(),
    via head_of_decreases
{
    match line_end(input) {
        None => Err(ParseError::IncompleteRequest),
        Some(n) => if n == 0 {
            Ok((head, input.skip(2)))
        } else {
            match with_header_line(head, input.take(n)) {
                Err(e) => Err(e),
                Ok(next) => head_of(input.skip(n + 2), next),
            }
        },
    }
}

#[via_fn]
proof fn head_of_decreases(input: Seq<u8>, head: HeadView) {
    lemma_line_end_from(input, 0);
}

/// A head in which nothing has been gathered yet.
pub open spec fn empty_head() -> HeadView {
    HeadView { headers: Map::empty(), content_length: 0 }
}

/// The request that a start line, a head and the bytes after the head make.
///
/// The body is made of as many of those bytes as the head's length says, and
/// the request is incomplete where there are fewer. What follows the body is
/// not looked at. The method is looked up last.
pub open spec fn request_of(start: StartLine, head: HeadView, rest: Seq<u8>) -> Result<
    RequestView,
    ParseError,
> {
    if rest.len() < head.content_length {
        Err(ParseError::IncompleteRequest)
    } else {
        match method_of(start.method) {
            None => Err(ParseError::UnsupportedMethod),
            Some(method) => Ok(
                RequestView {
                    method,
                    path: start.path,
                    version: start.version,
                    headers: if head.headers == Map::<Seq<char>, Seq<char>>::empty() {
                        None
                    } else {
                        Some(head.headers)
                    },
                    body: if head.content_length > 0 {
                        Some(rest.take(head.content_length as int))
                    } else {
                        None
                    },
                },
            ),
        }
    }
}

/// What `input` holds as a request.
///
/// The first line must be a start line, else the error is `InvalidStartLine`.
/// Then the header lines are read up to the blank line; the first bad
/// `Content-Length` among them gives `InvalidContentLength`, and the last good
/// one gives the length of the body. Where `input` ends before the start
/// line, the blank line or the body does, the error is `IncompleteRequest`.
pub open spec fn parsed(input: Seq<u8>) -> Result<RequestView, ParseError> {
    match line_end(input) {
        None => Err(ParseError::IncompleteRequest),
        Some(n) => match start_line(input.take(n)) {
            None => Err(ParseError::InvalidStartLine),
            Some(start) => match head_of(input.skip(n + 2), empty_head()) {
                Err(e) => Err(e),
                Ok((head, rest)) => request_of(start, head, rest),
            },
        },
    }
}

/// What has been gathered from the header lines read so far.
struct Head {
    headers: Headers,
    content_length: usize,
}

impl View for Head {
    type V = HeadView;

    closed spec fn view(&self) -> HeadView {
        HeadView { headers: self.headers@, content_length: self.content_length as nat }
    }
}

impl Method {
    /// Reads a method token.
    pub fn parse(token: &str) -> (r: Result<Method, ParseError>)
        ensures
            match r {
                Ok(method) => method_of(token@) == Some(method),
                Err(e) => e == ParseError::UnsupportedMethod && method_of(token@) is None,
            },
    {
        let folded: Vec<u8> = to_lowercase(token.as_bytes());
        if same_bytes(folded.as_slice(), "get".as_bytes()) {
            Ok(Method::GET)
        } else if same_bytes(folded.as_slice(), "post".as_bytes()) {
            Ok(Method::POST)
        } else {
            Err(ParseError::UnsupportedMethod)
        }
    }
}

/// Reads the three tokens of a start line.
fn read_start_line(line: &[u8]) -> (r: Option<(String, String, String)>)
    ensures
        match r {
            Some(tokens) => start_line(line@) == Some(
                StartLine { method: tokens.0@, path: tokens.1@, version: tokens.2@ },
            ),
            None => start_line(line@) is None,
        },
{
    let i: usize = match find_byte(line, SPACE) {
        Some(i) => i,
        None => {
            return None;
        },
    };
    let rest: &[u8] = &line[i + 1..line.len()];
    let j: usize = match find_byte(rest, SPACE) {
        Some(j) => j,
        None => {
            assert(split(rest@, SPACE) =~= seq![rest@]);
            assert(split(line@, SPACE) =~= seq![line@.take(i as int)] + split(rest@, SPACE));
            return None;
        },
    };
    let last: &[u8] = &rest[j + 1..rest.len()];
    proof {
        lemma_split(last@, SPACE);
        assert(split(rest@, SPACE) =~= seq![rest@.take(j as int)] + split(last@, SPACE));
        assert(split(line@, SPACE) =~= seq![line@.take(i as int), rest@.take(j as int)] + split(
            last@,
            SPACE,
        ));
    }
    if find_byte(last, SPACE).is_some() {
        proof {
            let k = position(last@, SPACE).unwrap();
            lemma_split(last@.skip(k + 1), SPACE);
        }
        return None;
    }
    let method: Option<String> = decode(&line[0..i]);
    let path: Option<String> = decode(&rest[0..j]);
    let version: Option<String> = decode(last);
    match (method, path, version) {
        (Some(method), Some(path), Some(version)) => Some((method, path, version)),
        _ => None,
    }
}

/// Reads one header line into `head`.
fn read_header_line(head: Head, line: &[u8]) -> (r: Result<Head, ParseError>)
    ensures
        match r {
            Ok(next) => with_header_line(head@, line@) == Ok::<HeadView, ParseError>(next@),
            Err(e) => with_header_line(head@, line@) == Err::<HeadView, ParseError>(e),
        },
{
    let colon: usize = match find_byte(line, COLON) {
        Some(colon) => colon,
        None => {
            return Ok(head);
        },
    };
    let name_bytes: Vec<u8> = to_lowercase(trim(&line[0..colon]));
    let value_bytes: &[u8] = trim(&line[colon + 1..line.len()]);
    let name: Option<String> = decode(name_bytes.as_slice());
    let value: Option<String> = decode(value_bytes);
    let names_length: bool = match &name {
        Some(name) => same_text(name.as_str(), "content-length"),
        None => false,
    };
    let content_length: usize = if names_length {
        match parse_length(value_bytes) {
            Some(n) => n,
            None => {
                return Err(ParseError::InvalidContentLength);
            },
        }
    } else {
        head.content_length
    };
    let mut headers: Headers = head.headers;
    match (name, value) {
        (Some(name), Some(value)) => {
            headers.insert(name, value);
        },
        _ => {},
    }
    Ok(Head { headers, content_length })
}

/// Reads the header lines at the start of `input` and says where the body starts.
fn read_head(input: &[u8]) -> (r: Result<(Head, usize), ParseError>)
    ensures
        match r {
            Ok((head, at)) => at <= input.len() && head_of(input@, empty_head()) == Ok::<
                (HeadView, Seq<u8>),
                ParseError,
            >((head@, input@.skip(at as int))),
            Err(e) => head_of(input@, empty_head()) == Err::<(HeadView, Seq<u8>), ParseError>(e),
        },
{
    let mut head = Head { headers: Headers::new(), content_length: 0 };
    let mut at: usize = 0;
    assert(input@.skip(0) == input@);
    loop
        invariant
            at <= input.len(),
            head_of(input@, empty_head()) == head_of(input@.skip(at as int), head@),
        decreases input.len() - at,
    {
        let rest: &[u8] = &input[at..input.len()];
        let n: usize = match find_line_end(rest) {
            Some(n) => n,
            None => {
                return Err(ParseError::IncompleteRequest);
            },
        };
        if n == 0 {
            assert(rest@.skip(2) == input@.skip(at + 2));
            return Ok((head, at + 2));
        }
        head = match read_header_line(head, &rest[0..n]) {
            Ok(next) => next,
            Err(e) => {
                return Err(e);
            },
        };
        assert(rest@.skip(n + 2) == input@.skip(at + n + 2));
        at = at + n + 2;
    }
}

impl Request {
    /// Reads a request from the bytes received so far.
    pub fn parse(input: &[u8]) -> (r: Result<Request, ParseError>)
        ensures
            match r {
                Ok(request) => parsed(input@) == Ok::<RequestView, ParseError>(request@),
                Err(e) => parsed(input@) == Err::<RequestView, ParseError>(e),
            },
    {
        let n: usize = match find_line_end(input) {
            Some(n) => n,
            None => {
                return Err(ParseError::IncompleteRequest);
            },
        };
        let (method, path, version) = match read_start_line(&input[0..n]) {
            Some(tokens) => tokens,
            None => {
                return Err(ParseError::InvalidStartLine);
            },
        };
        let after: &[u8] = &input[n + 2..input.len()];
        let (head, at) = match read_head(after) {
            Ok(found) => found,
            Err(e) => {
                return Err(e);
            },
        };
        let rest: &[u8] = &after[at..after.len()];
        if rest.len() < head.content_length {
            return Err(ParseError::IncompleteRequest);
        }
        let method: Method = match Method::parse(method.as_str()) {
            Ok(method) => method,
            Err(e) => {
                return Err(e);
            },
        };
        let body: Option<Vec<u8>> = if head.content_length > 0 {
            Some(slice_to_vec(&rest[0..head.content_length]))
        } else {
            None
        };
        let headers: Option<Headers> = if head.headers.is_empty() {
            None
        } else {
            Some(head.headers)
        };
        Ok(Request { method, path, version, headers, body })
    }
}

} // verus!
