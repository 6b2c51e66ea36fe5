//! What holds of requests and connections as a whole: laws that relate the
//! grammar, the routes and the state machine, each proved from their
//! specifications.

use vstd::prelude::*;
use vstd::utf8::*;

use crate::ascii::{
    crlf_at, is_digit, lemma_line_end_from, lemma_lowercase_is_lowercase,
    lemma_lowercase_trimmed, lemma_position_from, lemma_trimmed_is_trimmed, length_value,
    line_end, line_end_from, lowercase, position, split, trimmed, unsigned_digits, COLON, CR, LF,
    PLUS, SPACE,
};
use crate::connection::{on_bytes, reply, step_of, ActionView, ConnectionView, EventView, StageView};
use crate::files::within;
use crate::request::{
    empty_head, head_of, header_name, header_value, parsed, request_of, start_line,
    with_header_line, HeadView, Method, ParseError, RequestView,
};
use crate::response::{header_bytes, lemma_wire_format, payload_bytes, wire_bytes, ResponseView};
use crate::route::{answer, bare};
use crate::status::status_text;
use crate::text::{decoded, lemma_ascii_is_text, lemma_decoded};

verus! {

/// A CRLF that no other comes before is the end of the first line.
proof fn lemma_line_end_is(s: Seq<u8>, i: int, p: int)
    requires
        0 <= i <= p,
        crlf_at(s, p),
        forall|j: int| i <= j < p ==> !crlf_at(s, j),
    ensures
        line_end_from(s, i) == Some(p),
    decreases p - i,
{
    if i < p {
        lemma_line_end_is(s, i + 1, p);
    }
}

/// Bytes that follow do not move the end of the first line.
proof fn lemma_line_end_extend(s: Seq<u8>, more: Seq<u8>)
    requires
        line_end(s) is Some,
    ensures
        line_end(s + more) == line_end(s),
        0 <= line_end(s).unwrap(),
        line_end(s).unwrap() + 2 <= s.len(),
{
    lemma_line_end_from(s, 0);
    let p = line_end(s).unwrap();
    assert(crlf_at(s + more, p));
    assert forall|j: int| 0 <= j < p implies !crlf_at(s + more, j) by {
        assert(!crlf_at(s, j));
    }
    lemma_line_end_is(s + more, 0, p);
}

/// A line that holds no CRLF ends where the CRLF that follows it starts.
proof fn lemma_line_end_concat(line: Seq<u8>, rest: Seq<u8>)
    requires
        line_end(line) is None,
    ensures
        line_end(line + seq![CR, LF] + rest) == Some(line.len() as int),
        (line + seq![CR, LF] + rest).take(line.len() as int) == line,
        (line + seq![CR, LF] + rest).skip(line.len() as int + 2) == rest,
{
    lemma_line_end_from(line, 0);
    let s = line + seq![CR, LF] + rest;
    let p = line.len() as int;
    assert(crlf_at(s, p));
    assert forall|j: int| 0 <= j < p implies !crlf_at(s, j) by {
        assert(!crlf_at(line, j));
    }
    lemma_line_end_is(s, 0, p);
    assert(s.take(p) =~= line);
    assert(s.skip(p + 2) =~= rest);
}

/// What a request holds is decided by its first line, and then by what
/// follows the CRLF of that line.
pub proof fn lemma_parsed_by_lines(start: Seq<u8>, rest: Seq<u8>)
    requires
        line_end(start) is None,
    ensures
        parsed(start + seq![CR, LF] + rest) == match start_line(start) {
            None => Err::<RequestView, ParseError>(ParseError::InvalidStartLine),
            Some(tokens) => match head_of(rest, empty_head()) {
                Err(e) => Err(e),
                Ok((head, body)) => request_of(tokens, head, body),
            },
        },
{
    lemma_line_end_concat(start, rest);
}

/// A header line that is followed by its CRLF is read, and then what follows
/// that CRLF.
pub proof fn lemma_head_of_line(head: HeadView, line: Seq<u8>, rest: Seq<u8>)
    requires
        line.len() > 0,
        line_end(line) is None,
    ensures
        head_of(line + seq![CR, LF] + rest, head) == match with_header_line(head, line) {
            Err(e) => Err::<(HeadView, Seq<u8>), ParseError>(e),
            Ok(next) => head_of(rest, next),
        },
{
    lemma_line_end_concat(line, rest);
}

/// A blank line ends the head, and what follows it is left for the body.
pub proof fn lemma_head_of_blank_line(head: HeadView, rest: Seq<u8>)
    ensures
        head_of(seq![CR, LF] + rest, head) == Ok::<(HeadView, Seq<u8>), ParseError>((head, rest)),
{
    let s = seq![CR, LF] + rest;
    assert(crlf_at(s, 0));
    assert(s.skip(2) =~= rest);
}

/// The lines, each followed by a CRLF.
pub open spec fn joined(lines: Seq<Seq<u8>>) -> Seq<u8>
    decreases lines.len(),
{
    if lines.len() == 0 {
        Seq::empty()
    } else {
        lines[0] + seq![CR, LF] + joined(lines.drop_first())
    }
}

/// What is gathered once the header lines are read in order, or the error of
/// the first line that fails.
pub open spec fn with_header_lines(head: HeadView, lines: Seq<Seq<u8>>) -> Result<
    HeadView,
    ParseError,
>
    decreases lines.len(),
{
    if lines.len() == 0 {
        Ok(head)
    } else {
        match with_header_line(head, lines[0]) {
            Err(e) => Err(e),
            Ok(next) => with_header_lines(next, lines.drop_first()),
        }
    }
}

/// Whether each line holds at least a byte and no CRLF.
pub open spec fn are_lines(lines: Seq<Seq<u8>>) -> bool {
    forall|i: int|
        0 <= i < lines.len() ==> (#[trigger] lines[i]).len() > 0 && line_end(lines[i]) is None
}

/// Header lines that stand one after the other are read in order, and then
/// what follows them.
pub proof fn lemma_head_of_lines(head: HeadView, lines: Seq<Seq<u8>>, rest: Seq<u8>)
    requires
        are_lines(lines),
    ensures
        head_of(joined(lines) + rest, head) == match with_header_lines(head, lines) {
            Err(e) => Err::<(HeadView, Seq<u8>), ParseError>(e),
            Ok(next) => head_of(rest, next),
        },
    decreases lines.len(),
{
    if lines.len() == 0 {
        assert(joined(lines) + rest =~= rest);
    } else {
        let line = lines[0];
        let others = lines.drop_first();
        assert(are_lines(others)) by {
            assert forall|i: int| 0 <= i < others.len() implies (#[trigger] others[i]).len() > 0
                && line_end(others[i]) is None by {
                assert(others[i] == lines[i + 1]);
            }
        }
        assert(joined(lines) + rest =~= line + seq![CR, LF] + (joined(others) + rest));
        lemma_head_of_line(head, line, joined(others) + rest);
        if let Ok(next) = with_header_line(head, line) {
            lemma_head_of_lines(next, others, rest);
        }
    }
}

/// A start line, header lines that are read without failure, and a blank
/// line make the request that the start line, the headers gathered and the
/// bytes after the blank line give.
pub proof fn lemma_request_by_lines(start: Seq<u8>, lines: Seq<Seq<u8>>, rest: Seq<u8>)
    requires
        line_end(start) is None,
        start_line(start) is Some,
        are_lines(lines),
        with_header_lines(empty_head(), lines) is Ok,
    ensures
        parsed(start + seq![CR, LF] + joined(lines) + seq![CR, LF] + rest) == request_of(
            start_line(start).unwrap(),
            with_header_lines(empty_head(), lines).unwrap(),
            rest,
        ),
{
    let after_lines = seq![CR, LF] + rest;
    let after_start = joined(lines) + after_lines;
    assert(start + seq![CR, LF] + joined(lines) + seq![CR, LF] + rest =~= start + seq![CR, LF]
        + after_start);
    lemma_parsed_by_lines(start, after_start);
    lemma_head_of_lines(empty_head(), lines, after_lines);
    lemma_head_of_blank_line(with_header_lines(empty_head(), lines).unwrap(), rest);
}

/// The number of tokens that single spaces part a line into.
pub open spec fn token_count(line: Seq<u8>) -> nat {
    split(line, SPACE).len()
}

/// Input whose first line has fewer or more than three tokens is refused as
/// an invalid start line.
pub proof fn lemma_wrong_token_count(input: Seq<u8>)
    requires
        line_end(input) matches Some(n) && token_count(input.take(n)) != 3,
    ensures
        parsed(input) == Err::<RequestView, ParseError>(ParseError::InvalidStartLine),
{
}

/// Whether a header line is named `Content-Length`, in whatever case, and
/// its value is no length.
pub open spec fn is_bad_length_line(line: Seq<u8>) -> bool {
    position(line, COLON) matches Some(colon) && header_name(line, colon) == encode_utf8(
        "content-length"@,
    ) && length_value(header_value(line, colon)) is None
}

/// A `Content-Length` line whose value is no length fails the head.
pub proof fn lemma_bad_length_line(head: HeadView, line: Seq<u8>)
    requires
        is_bad_length_line(line),
    ensures
        with_header_line(head, line) == Err::<HeadView, ParseError>(
            ParseError::InvalidContentLength,
        ),
{
    lemma_decoded("content-length"@);
}

/// A header line fails in one way only: as a `Content-Length` line whose
/// value is no length.
proof fn lemma_lines_fail_by_length(head: HeadView, lines: Seq<Seq<u8>>)
    ensures
        with_header_lines(head, lines) matches Err(e) ==> e == ParseError::InvalidContentLength,
    decreases lines.len(),
{
    if lines.len() > 0 {
        if let Ok(next) = with_header_line(head, lines[0]) {
            lemma_lines_fail_by_length(next, lines.drop_first());
        }
    }
}

/// A request with a start line, any header lines, and then a `Content-Length`
/// line whose value is no length, is refused with `InvalidContentLength`,
/// whatever follows that line.
pub proof fn lemma_bad_content_length(
    start: Seq<u8>,
    lines: Seq<Seq<u8>>,
    bad: Seq<u8>,
    rest: Seq<u8>,
)
    requires
        line_end(start) is None,
        start_line(start) is Some,
        are_lines(lines),
        line_end(bad) is None,
        is_bad_length_line(bad),
    ensures
        parsed(start + seq![CR, LF] + joined(lines) + bad + seq![CR, LF] + rest) == Err::<
            RequestView,
            ParseError,
        >(ParseError::InvalidContentLength),
{
    let after_lines = bad + seq![CR, LF] + rest;
    let after_start = joined(lines) + after_lines;
    assert(start + seq![CR, LF] + joined(lines) + bad + seq![CR, LF] + rest =~= start + seq![
        CR,
        LF,
    ] + after_start);
    lemma_parsed_by_lines(start, after_start);
    lemma_head_of_lines(empty_head(), lines, after_lines);
    lemma_lines_fail_by_length(empty_head(), lines);
    if let Ok(head) = with_header_lines(empty_head(), lines) {
        lemma_position_from(bad, COLON, 0);
        lemma_head_of_line(head, bad, rest);
        lemma_bad_length_line(head, bad);
    }
}

proof fn lemma_head_of_is_final(input: Seq<u8>, head: HeadView, more: Seq<u8>)
    requires
        head_of(input, head) != Err::<(HeadView, Seq<u8>), ParseError>(
            ParseError::IncompleteRequest,
        ),
    ensures
        head_of(input + more, head) == match head_of(input, head) {
            Ok((found, rest)) => Ok::<(HeadView, Seq<u8>), ParseError>((found, rest + more)),
            Err(e) => Err(e),
        },
    decreases input.len(),
{
    lemma_line_end_extend(input, more);
    let n = line_end(input).unwrap();
    assert((input + more).take(n) =~= input.take(n));
    if n == 0 {
        assert((input + more).skip(2) =~= input.skip(2) + more);
    } else {
        assert((input + more).skip(n + 2) =~= input.skip(n + 2) + more);
        if let Ok(next) = with_header_line(head, input.take(n)) {
            lemma_head_of_is_final(input.skip(n + 2), next, more);
        }
    }
}

/// Once what has been received holds a request, or is refused for another
/// reason than being incomplete, bytes that follow change nothing.
pub proof fn lemma_parsed_is_final(input: Seq<u8>, more: Seq<u8>)
    requires
        parsed(input) != Err::<RequestView, ParseError>(ParseError::IncompleteRequest),
    ensures
        parsed(input + more) == parsed(input),
{
    lemma_line_end_extend(input, more);
    let n = line_end(input).unwrap();
    assert((input + more).take(n) =~= input.take(n));
    assert((input + more).skip(n + 2) =~= input.skip(n + 2) + more);
    if let Some(start) = start_line(input.take(n)) {
        lemma_head_of_is_final(input.skip(n + 2), empty_head(), more);
        if let Ok((head, rest)) = head_of(input.skip(n + 2), empty_head()) {
            if rest.len() >= head.content_length {
                assert((rest + more).take(head.content_length as int) =~= rest.take(
                    head.content_length as int,
                ));
            }
        }
    }
}

/// The length that the headers declare for the body: the value of their
/// `content-length`, and zero where they have none.
pub open spec fn declared_length(headers: Map<Seq<char>, Seq<char>>) -> Option<nat> {
    if headers.contains_key("content-length"@) {
        length_value(encode_utf8(headers["content-length"@]))
    } else {
        Some(0)
    }
}

proof fn lemma_length_is_recorded(head: HeadView, line: Seq<u8>)
    requires
        declared_length(head.headers) == Some(head.content_length),
        with_header_line(head, line) is Ok,
    ensures
        ({
            let next = with_header_line(head, line).unwrap();
            declared_length(next.headers) == Some(next.content_length)
        }),
{
    if let Some(colon) = position(line, COLON) {
        let name = decoded(header_name(line, colon));
        let value = header_value(line, colon);
        if name == Some("content-length"@) {
            let digits = unsigned_digits(value);
            assert forall|i: int| 0 <= i < value.len() implies value[i] < 128 by {
                if value[0] == PLUS {
                    if i > 0 {
                        assert(is_digit(digits[i - 1]));
                    }
                } else {
                    assert(is_digit(digits[i]));
                }
            }
            lemma_ascii_is_text(value);
            decode_utf8_encode_utf8(value);
        }
    }
}

proof fn lemma_head_declares_length(input: Seq<u8>, head: HeadView)
    requires
        declared_length(head.headers) == Some(head.content_length),
        head_of(input, head) is Ok,
    ensures
        ({
            let found = head_of(input, head).unwrap().0;
            declared_length(found.headers) == Some(found.content_length)
        }),
    decreases input.len(),
{
    lemma_line_end_from(input, 0);
    let n = line_end(input).unwrap();
    if n != 0 {
        lemma_length_is_recorded(head, input.take(n));
        lemma_head_declares_length(
            input.skip(n + 2),
            with_header_line(head, input.take(n)).unwrap(),
        );
    }
}

/// A request has a body exactly where its headers declare a length greater
/// than zero, and the body has that length.
pub proof fn lemma_body_has_declared_length(input: Seq<u8>)
    requires
        parsed(input) is Ok,
    ensures
        ({
            let request = parsed(input).unwrap();
            let headers = match request.headers {
                Some(headers) => headers,
                None => Map::empty(),
            };
            match request.body {
                Some(body) => body.len() > 0 && declared_length(headers) == Some(body.len()),
                None => declared_length(headers) == Some(0nat),
            }
        }),
{
    lemma_line_end_from(input, 0);
    let n = line_end(input).unwrap();
    lemma_head_declares_length(input.skip(n + 2), empty_head());
}

/// Whether a header name holds no upper-case ASCII letter.
pub open spec fn is_lowercase(name: Seq<char>) -> bool {
    lowercase(encode_utf8(name)) == encode_utf8(name)
}

/// Whether a text neither starts nor ends with a blank.
pub open spec fn is_trimmed(text: Seq<char>) -> bool {
    trimmed(encode_utf8(text)) == encode_utf8(text)
}

/// Whether every name is trimmed and in lower case, and every value trimmed.
pub open spec fn are_normal(headers: Map<Seq<char>, Seq<char>>) -> bool {
    forall|name: Seq<char>| #[trigger]
        headers.contains_key(name) ==> is_lowercase(name) && is_trimmed(name) && is_trimmed(
            headers[name],
        )
}

proof fn lemma_line_keeps_headers_normal(head: HeadView, line: Seq<u8>)
    requires
        are_normal(head.headers),
        with_header_line(head, line) is Ok,
    ensures
        are_normal(with_header_line(head, line).unwrap().headers),
{
    if let Some(colon) = position(line, COLON) {
        let name = header_name(line, colon);
        let value = header_value(line, colon);
        if valid_utf8(name) && valid_utf8(value) {
            decode_utf8_encode_utf8(name);
            decode_utf8_encode_utf8(value);
            lemma_lowercase_is_lowercase(trimmed(line.take(colon)));
            lemma_lowercase_trimmed(trimmed(line.take(colon)));
            lemma_trimmed_is_trimmed(line.take(colon));
            lemma_trimmed_is_trimmed(line.skip(colon + 1));
            let next = with_header_line(head, line).unwrap().headers;
            assert(next == head.headers.insert(decode_utf8(name), decode_utf8(value)));
            assert forall|key: Seq<char>| #[trigger] next.contains_key(key) implies is_lowercase(
                key,
            ) && is_trimmed(key) && is_trimmed(next[key]) by {
                if key != decode_utf8(name) {
                    assert(head.headers.contains_key(key));
                }
            }
        }
    }
}

proof fn lemma_head_keeps_headers_normal(input: Seq<u8>, head: HeadView)
    requires
        are_normal(head.headers),
        head_of(input, head) is Ok,
    ensures
        are_normal(head_of(input, head).unwrap().0.headers),
    decreases input.len(),
{
    lemma_line_end_from(input, 0);
    let n = line_end(input).unwrap();
    if n != 0 {
        lemma_line_keeps_headers_normal(head, input.take(n));
        lemma_head_keeps_headers_normal(
            input.skip(n + 2),
            with_header_line(head, input.take(n)).unwrap(),
        );
    }
}

/// The headers of a request are stored by their names in lower case, and
/// names and values are stored without blanks around them.
pub proof fn lemma_headers_are_normal(input: Seq<u8>)
    requires
        parsed(input) is Ok,
    ensures
        parsed(input).unwrap().headers matches Some(headers) ==> are_normal(headers),
{
    lemma_line_end_from(input, 0);
    let n = line_end(input).unwrap();
    lemma_head_keeps_headers_normal(input.skip(n + 2), empty_head());
}

/// A request that stands and goes to no file route is answered at once, and
/// what is sent is the answer of its route in the wire format.
pub proof fn lemma_answer_is_sent(serving: bool, buffer: Seq<u8>)
    requires
        parsed(buffer) is Ok,
        answer(parsed(buffer).unwrap(), serving) is Some,
    ensures
        on_bytes(serving, buffer) == (
            StageView::Sending,
            ActionView::Send(wire_bytes(answer(parsed(buffer).unwrap(), serving).unwrap())),
        ),
{
}

/// A request made of a start line, header lines that are read without
/// failure, a blank line and its body, which goes to no file route, is
/// answered at once; and what is sent is, byte for byte, the status line of
/// the answer of its route, the lines of the answer's headers, and the
/// answer's payload.
pub proof fn lemma_request_is_answered(
    serving: bool,
    start: Seq<u8>,
    lines: Seq<Seq<u8>>,
    rest: Seq<u8>,
)
    requires
        line_end(start) is None,
        start_line(start) is Some,
        are_lines(lines),
        with_header_lines(empty_head(), lines) is Ok,
        request_of(
            start_line(start).unwrap(),
            with_header_lines(empty_head(), lines).unwrap(),
            rest,
        ) is Ok,
        answer(
            request_of(
                start_line(start).unwrap(),
                with_header_lines(empty_head(), lines).unwrap(),
                rest,
            ).unwrap(),
            serving,
        ) is Some,
    ensures
        ({
            let request = request_of(
                start_line(start).unwrap(),
                with_header_lines(empty_head(), lines).unwrap(),
                rest,
            ).unwrap();
            let response = answer(request, serving).unwrap();
            on_bytes(serving, start + seq![CR, LF] + joined(lines) + seq![CR, LF] + rest) == (
                StageView::Sending,
                ActionView::Send(
                    encode_utf8("HTTP/1.1 "@) + encode_utf8(status_text(response.status)) + seq![
                        CR,
                        LF,
                    ] + match response.headers {
                        Some(headers) => header_bytes(headers, headers.len() as int),
                        None => Seq::empty(),
                    } + payload_bytes(response.body),
                ),
            )
        }),
{
    lemma_request_by_lines(start, lines, rest);
    let request = request_of(
        start_line(start).unwrap(),
        with_header_lines(empty_head(), lines).unwrap(),
        rest,
    ).unwrap();
    lemma_wire_format(answer(request, serving).unwrap());
}

/// A request that no route takes is answered with `404 Not Found`, without
/// headers and without a body.
pub proof fn lemma_unrouted_is_not_found(serving: bool, buffer: Seq<u8>)
    requires
        parsed(buffer) is Ok,
        ({
            let request = parsed(buffer).unwrap();
            &&& !(request.method == Method::GET && request.path == "/"@)
            &&& !(request.method == Method::GET && "/echo/"@.is_prefix_of(request.path))
            &&& !(request.method == Method::GET && "/user-agent"@.is_prefix_of(request.path))
            &&& !(serving && "/files/"@.is_prefix_of(request.path))
        }),
    ensures
        on_bytes(serving, buffer) == reply(ResponseView { status: 404, headers: None, body: None }),
{
}

/// A file that does not exist, or whose canonical location is not within the
/// served directory, is answered with `404 Not Found`, whatever it holds: it
/// is never read.
pub proof fn lemma_outside_is_not_found(
    connection: ConnectionView,
    location: Option<Seq<Seq<char>>>,
)
    requires
        connection.stage is Locating,
        location matches Some(place) ==> !(connection.root matches Some(root) && within(
            root,
            place,
        )),
    ensures
        step_of(connection, EventView::Located(location)) == reply(bare(404)),
{
}

/// When what has been received cannot be a request, the connection is closed
/// and nothing is sent.
pub proof fn lemma_failure_is_refused(connection: ConnectionView, bytes: Seq<u8>)
    requires
        connection.stage matches StageView::Receiving(buffer) && parsed(buffer + bytes) is Err
            && parsed(buffer + bytes) != Err::<RequestView, ParseError>(
            ParseError::IncompleteRequest,
        ),
    ensures
        step_of(connection, EventView::Received(bytes)) matches (
            StageView::Closed,
            ActionView::Reject(error),
        ) && parsed(connection.stage->Receiving_0 + bytes) == Err::<RequestView, ParseError>(error),
{
}

/// When the first line of what has been received has fewer or more than
/// three tokens, the connection is closed and nothing is sent.
pub proof fn lemma_wrong_token_count_is_refused(connection: ConnectionView, bytes: Seq<u8>)
    requires
        connection.stage matches StageView::Receiving(buffer) && line_end(
            buffer + bytes,
        ) matches Some(n) && token_count((buffer + bytes).take(n)) != 3,
    ensures
        step_of(connection, EventView::Received(bytes)) == (
            StageView::Closed,
            ActionView::Reject(ParseError::InvalidStartLine),
        ),
{
    if let StageView::Receiving(buffer) = connection.stage {
        lemma_wrong_token_count(buffer + bytes);
    }
}

/// While a connection waits for bytes, those that it holds are no whole
/// request yet: a new connection holds none, and a step leaves a connection
/// waiting only where the request is incomplete.
pub proof fn lemma_waiting_is_incomplete(connection: ConnectionView, event: EventView)
    ensures
        parsed(Seq::<u8>::empty()) == Err::<RequestView, ParseError>(
            ParseError::IncompleteRequest,
        ),
        step_of(connection, event).0 matches StageView::Receiving(buffer) ==> parsed(buffer)
            == Err::<RequestView, ParseError>(ParseError::IncompleteRequest),
{
}

/// How many responses are sent while a connection takes the events in order.
pub open spec fn responses_sent(connection: ConnectionView, events: Seq<EventView>) -> nat
    decreases events.len(),
{
    if events.len() == 0 {
        0
    } else {
        let (stage, action) = step_of(connection, events[0]);
        let sent: nat = if action is Send {
            1
        } else {
            0
        };
        sent + responses_sent(
            ConnectionView { root: connection.root, stage },
            events.drop_first(),
        )
    }
}

proof fn lemma_nothing_follows(connection: ConnectionView, events: Seq<EventView>)
    requires
        connection.stage is Sending || connection.stage is Closed,
    ensures
        responses_sent(connection, events) == 0,
    decreases events.len(),
{
    if events.len() > 0 {
        let (stage, action) = step_of(connection, events[0]);
        lemma_nothing_follows(
            ConnectionView { root: connection.root, stage },
            events.drop_first(),
        );
    }
}

/// A connection carries at most one response, whatever happens on it; and
/// once a request has been refused, or a response has been handed out, nothing
/// is sent any more.
pub proof fn lemma_at_most_one_response(connection: ConnectionView, events: Seq<EventView>)
    ensures
        responses_sent(connection, events) <= 1,
        connection.stage is Sending || connection.stage is Closed ==> responses_sent(
            connection,
            events,
        ) == 0,
        events.len() > 0 && (step_of(connection, events[0]).1 is Reject || step_of(
            connection,
            events[0],
        ).1 is Send) ==> responses_sent(
            ConnectionView { root: connection.root, stage: step_of(connection, events[0]).0 },
            events.drop_first(),
        ) == 0,
    decreases events.len(),
{
    if connection.stage is Sending || connection.stage is Closed {
        lemma_nothing_follows(connection, events);
    }
    if events.len() > 0 {
        let (stage, action) = step_of(connection, events[0]);
        let next = ConnectionView { root: connection.root, stage };
        if action is Send || action is Reject {
            lemma_nothing_follows(next, events.drop_first());
        } else {
            lemma_at_most_one_response(next, events.drop_first());
        }
    }
}

/// Whatever is sent is a response in the wire format.
pub proof fn lemma_sent_is_a_response(connection: ConnectionView, event: EventView)
    ensures
        step_of(connection, event).1 matches ActionView::Send(bytes) ==> exists|
            response: ResponseView,
        |
            bytes == wire_bytes(response),
{
    let (stage, action) = step_of(connection, event);
    if let ActionView::Send(bytes) = action {
        let response: ResponseView = choose|response: ResponseView|
            (stage, action) == reply(response);
        assert(bytes == wire_bytes(response));
    }
}

} // verus!
