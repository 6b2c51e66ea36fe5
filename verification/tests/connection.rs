use http_server::connection::{Action, Connection, Event, Stage};
use http_server::request::ParseError;

fn parts(path: &str) -> Vec<String> {
    path.split('/').map(|part| part.to_string()).collect()
}

fn serving() -> Connection {
    Connection::new(Some(parts("/srv/www")))
}

fn sent(action: Action) -> String {
    match action {
        Action::Send(bytes) => String::from_utf8(bytes).unwrap(),
        other => panic!("nothing was sent: {:?}", other),
    }
}

fn closed(connection: &Connection) -> bool {
    matches!(connection.stage, Stage::Closed)
}

#[test]
fn get_root_is_answered_with_a_bare_ok() {
    let mut connection = Connection::new(None);
    let action = connection.step(Event::Received(b"GET / HTTP/1.1\r\n\r\n".to_vec()));
    assert_eq!(sent(action), "HTTP/1.1 200 OK\r\n\r\n");
    assert!(matches!(connection.stage, Stage::Sending));
    assert!(matches!(connection.step(Event::Sent(true)), Action::Close));
    assert!(closed(&connection));
}

#[test]
fn get_echo_is_answered_with_the_text() {
    let mut connection = Connection::new(None);
    let action = connection.step(Event::Received(
        b"GET /echo/abc123 HTTP/1.1\r\nHost: localhost:4221\r\n\r\n".to_vec(),
    ));
    assert_eq!(
        sent(action),
        "HTTP/1.1 200 OK\r\nContent-Type: text/plain\r\nContent-Length: 6\r\n\r\nabc123"
    );
}

#[test]
fn get_user_agent_is_answered_with_the_header() {
    let mut connection = Connection::new(None);
    let action = connection.step(Event::Received(
        b"GET /user-agent HTTP/1.1\r\nUser-Agent: test-agent\r\n\r\n".to_vec(),
    ));
    assert_eq!(
        sent(action),
        "HTTP/1.1 200 OK\r\nContent-Type: text/plain\r\nContent-Length: 10\r\n\r\ntest-agent"
    );
}

#[test]
fn get_user_agent_without_the_header_is_answered_with_nothing() {
    let mut connection = Connection::new(None);
    let action = connection.step(Event::Received(b"GET /user-agent HTTP/1.1\r\n\r\n".to_vec()));
    assert_eq!(
        sent(action),
        "HTTP/1.1 200 OK\r\nContent-Type: text/plain\r\nContent-Length: 0\r\n\r\n"
    );
}

#[test]
fn get_file_is_located_then_loaded_then_sent() {
    let mut connection = serving();
    let action = connection.step(Event::Received(b"GET /files/foo.txt HTTP/1.1\r\n\r\n".to_vec()));
    assert!(matches!(action, Action::Locate(ref name) if name == "foo.txt"));
    let action = connection.step(Event::Located(Some(parts("/srv/www/foo.txt"))));
    assert!(matches!(action, Action::Load));
    let action = connection.step(Event::Loaded(Some("hello".to_string())));
    assert_eq!(
        sent(action),
        "HTTP/1.1 200 OK\r\nContent-Type: application/octet-stream\r\nContent-Length: 5\r\n\r\nhello"
    );
    assert!(matches!(connection.step(Event::Sent(true)), Action::Close));
}

#[test]
fn file_outside_the_directory_is_not_found_and_never_read() {
    let mut connection = serving();
    let action = connection.step(Event::Received(
        b"GET /files/../../etc/passwd HTTP/1.1\r\n\r\n".to_vec(),
    ));
    assert!(matches!(action, Action::Locate(ref name) if name == "../../etc/passwd"));
    let action = connection.step(Event::Located(Some(parts("/etc/passwd"))));
    assert_eq!(sent(action), "HTTP/1.1 404 Not Found\r\n\r\n");
}

#[test]
fn file_in_a_sibling_directory_is_not_found() {
    let mut connection = serving();
    connection.step(Event::Received(b"GET /files/../www-evil/x HTTP/1.1\r\n\r\n".to_vec()));
    let action = connection.step(Event::Located(Some(parts("/srv/www-evil/x"))));
    assert_eq!(sent(action), "HTTP/1.1 404 Not Found\r\n\r\n");
}

#[test]
fn missing_file_is_not_found() {
    let mut connection = serving();
    connection.step(Event::Received(b"GET /files/none.txt HTTP/1.1\r\n\r\n".to_vec()));
    let action = connection.step(Event::Located(None));
    assert_eq!(sent(action), "HTTP/1.1 404 Not Found\r\n\r\n");
}

#[test]
fn unreadable_file_is_not_found() {
    let mut connection = serving();
    connection.step(Event::Received(b"GET /files/foo.txt HTTP/1.1\r\n\r\n".to_vec()));
    connection.step(Event::Located(Some(parts("/srv/www/foo.txt"))));
    let action = connection.step(Event::Loaded(None));
    assert_eq!(sent(action), "HTTP/1.1 404 Not Found\r\n\r\n");
}

#[test]
fn files_without_a_directory_are_not_found() {
    let mut connection = Connection::new(None);
    let action = connection.step(Event::Received(b"GET /files/foo.txt HTTP/1.1\r\n\r\n".to_vec()));
    assert_eq!(sent(action), "HTTP/1.1 404 Not Found\r\n\r\n");
    let mut connection = Connection::new(None);
    let action = connection.step(Event::Received(
        b"POST /files/foo.txt HTTP/1.1\r\nContent-Length: 1\r\n\r\nx".to_vec(),
    ));
    assert_eq!(sent(action), "HTTP/1.1 404 Not Found\r\n\r\n");
}

#[test]
fn post_file_is_created_then_stored_then_answered() {
    let mut connection = serving();
    let action = connection.step(Event::Received(
        b"POST /files/new.txt HTTP/1.1\r\nContent-Length: 4\r\n\r\ndata".to_vec(),
    ));
    assert!(matches!(action, Action::Create(ref name) if name == "new.txt"));
    let action = connection.step(Event::Created(true));
    assert!(matches!(action, Action::Store(ref bytes) if bytes == b"data"));
    let action = connection.step(Event::Stored(true));
    assert_eq!(sent(action), "HTTP/1.1 201 Created\r\n\r\n");
    assert!(matches!(connection.step(Event::Sent(true)), Action::Close));
}

#[test]
fn posted_file_can_be_got_again() {
    let mut post = serving();
    post.step(Event::Received(
        b"POST /files/new.txt HTTP/1.1\r\nContent-Length: 4\r\n\r\ndata".to_vec(),
    ));
    let stored = match post.step(Event::Created(true)) {
        Action::Store(bytes) => bytes,
        other => panic!("nothing to store: {:?}", other),
    };
    assert_eq!(sent(post.step(Event::Stored(true))), "HTTP/1.1 201 Created\r\n\r\n");
    let mut get = serving();
    get.step(Event::Received(b"GET /files/new.txt HTTP/1.1\r\n\r\n".to_vec()));
    get.step(Event::Located(Some(parts("/srv/www/new.txt"))));
    let action = get.step(Event::Loaded(Some(String::from_utf8(stored).unwrap())));
    assert_eq!(
        sent(action),
        "HTTP/1.1 200 OK\r\nContent-Type: application/octet-stream\r\nContent-Length: 4\r\n\r\ndata"
    );
}

#[test]
fn post_without_a_body_is_a_server_error() {
    let mut connection = serving();
    let action = connection.step(Event::Received(b"POST /files/new.txt HTTP/1.1\r\n\r\n".to_vec()));
    assert!(matches!(action, Action::Create(_)));
    let action = connection.step(Event::Created(true));
    assert_eq!(sent(action), "HTTP/1.1 500 Internal Server Error\r\n\r\n");
}

#[test]
fn post_with_an_empty_body_is_a_server_error() {
    let mut connection = Connection {
        root: Some(parts("/srv/www")),
        stage: Stage::Creating(Some(Vec::new())),
    };
    let action = connection.step(Event::Created(true));
    assert_eq!(sent(action), "HTTP/1.1 500 Internal Server Error\r\n\r\n");
}

#[test]
fn file_that_cannot_be_created_is_a_server_error() {
    let mut connection = serving();
    connection.step(Event::Received(
        b"POST /files/new.txt HTTP/1.1\r\nContent-Length: 4\r\n\r\ndata".to_vec(),
    ));
    let action = connection.step(Event::Created(false));
    assert_eq!(sent(action), "HTTP/1.1 500 Internal Server Error\r\n\r\n");
}

#[test]
fn body_that_cannot_be_written_is_a_server_error() {
    let mut connection = serving();
    connection.step(Event::Received(
        b"POST /files/new.txt HTTP/1.1\r\nContent-Length: 4\r\n\r\ndata".to_vec(),
    ));
    connection.step(Event::Created(true));
    let action = connection.step(Event::Stored(false));
    assert_eq!(sent(action), "HTTP/1.1 500 Internal Server Error\r\n\r\n");
}

#[test]
fn unknown_route_is_not_found() {
    for request in [
        "GET /index.html HTTP/1.1\r\n\r\n",
        "GET /echo HTTP/1.1\r\n\r\n",
        "POST / HTTP/1.1\r\n\r\n",
        "POST /echo/abc HTTP/1.1\r\n\r\n",
    ] {
        let mut connection = serving();
        let action = connection.step(Event::Received(request.as_bytes().to_vec()));
        assert_eq!(sent(action), "HTTP/1.1 404 Not Found\r\n\r\n", "{:?}", request);
    }
}

#[test]
fn bad_start_line_closes_without_a_response() {
    for request in ["GET /\r\n\r\n", "GET / HTTP/1.1 extra\r\n\r\n", "GET\r\n\r\n", "\r\n"] {
        let mut connection = Connection::new(None);
        let action = connection.step(Event::Received(request.as_bytes().to_vec()));
        assert!(matches!(action, Action::Reject(ParseError::InvalidStartLine)), "{:?}", request);
        assert!(closed(&connection));
        assert!(matches!(connection.step(Event::Sent(true)), Action::Close));
    }
}

#[test]
fn bad_content_length_closes_without_a_response() {
    let mut connection = Connection::new(None);
    let action = connection.step(Event::Received(
        b"POST /files/x HTTP/1.1\r\nHost: h\r\nContent-Length: abc\r\n\r\n".to_vec(),
    ));
    assert!(matches!(action, Action::Reject(ParseError::InvalidContentLength)));
    assert!(closed(&connection));
}

#[test]
fn unsupported_method_closes_without_a_response() {
    let mut connection = Connection::new(None);
    let action = connection.step(Event::Received(b"PUT / HTTP/1.1\r\n\r\n".to_vec()));
    assert!(matches!(action, Action::Reject(ParseError::UnsupportedMethod)));
    assert!(closed(&connection));
}

#[test]
fn request_may_arrive_in_pieces() {
    let mut connection = serving();
    let pieces: [&[u8]; 5] =
        [b"POST /files/", b"new.txt HTTP/1.1\r", b"\nContent-Length: 4\r\n", b"\r\nda", b"ta"];
    for piece in &pieces[..4] {
        assert!(matches!(connection.step(Event::Received(piece.to_vec())), Action::Receive));
        assert!(matches!(connection.stage, Stage::Receiving(_)));
    }
    let action = connection.step(Event::Received(pieces[4].to_vec()));
    assert!(matches!(action, Action::Create(ref name) if name == "new.txt"));
    let action = connection.step(Event::Created(true));
    assert!(matches!(action, Action::Store(ref bytes) if bytes == b"data"));
}

#[test]
fn stream_that_ends_early_closes_without_a_response() {
    let mut connection = Connection::new(None);
    assert!(matches!(connection.step(Event::Received(b"GET / HT".to_vec())), Action::Receive));
    let action = connection.step(Event::Ended);
    assert!(matches!(action, Action::Reject(ParseError::IncompleteRequest)));
    assert!(closed(&connection));
    let mut connection = Connection::new(None);
    assert!(matches!(
        connection.step(Event::Ended),
        Action::Reject(ParseError::IncompleteRequest)
    ));
}

#[test]
fn bytes_after_the_request_are_not_looked_at() {
    let mut connection = Connection::new(None);
    let action = connection.step(Event::Received(
        b"GET /echo/a HTTP/1.1\r\n\r\nGET /echo/b HTTP/1.1\r\n\r\n".to_vec(),
    ));
    assert_eq!(
        sent(action),
        "HTTP/1.1 200 OK\r\nContent-Type: text/plain\r\nContent-Length: 1\r\n\r\na"
    );
}

#[test]
fn failed_send_still_closes() {
    let mut connection = Connection::new(None);
    connection.step(Event::Received(b"GET / HTTP/1.1\r\n\r\n".to_vec()));
    assert!(matches!(connection.step(Event::Sent(false)), Action::Close));
    assert!(closed(&connection));
}

#[test]
fn event_out_of_turn_closes() {
    let mut connection = serving();
    assert!(matches!(connection.step(Event::Loaded(Some("x".to_string()))), Action::Close));
    assert!(closed(&connection));
    let mut connection = serving();
    connection.step(Event::Received(b"GET /files/foo.txt HTTP/1.1\r\n\r\n".to_vec()));
    assert!(matches!(connection.step(Event::Stored(true)), Action::Close));
    assert!(closed(&connection));
}

#[test]
fn new_connection_waits_for_bytes() {
    let connection = Connection::new(Some(parts("/srv/www")));
    assert_eq!(connection.root, Some(parts("/srv/www")));
    assert!(matches!(connection.stage, Stage::Receiving(ref buffer) if buffer.is_empty()));
}

#[test]
fn nothing_is_sent_twice_whatever_happens() {
    let events = || {
        vec![
            Event::Received(b"GET /echo/x HTTP/1.1\r\n\r\n".to_vec()),
            Event::Received(b"GET / HTTP/1.1\r\n\r\n".to_vec()),
            Event::Located(Some(parts("/srv/www/x"))),
            Event::Loaded(Some("x".to_string())),
            Event::Created(true),
            Event::Stored(true),
            Event::Sent(true),
            Event::Ended,
        ]
    };
    for first in 0..events().len() {
        for second in 0..events().len() {
            for third in 0..events().len() {
                let mut connection = serving();
                let mut sends = 0;
                for at in [first, second, third, first, third, second] {
                    if let Action::Send(_) = connection.step(events().swap_remove(at)) {
                        sends += 1;
                    }
                }
                assert!(sends <= 1, "{} {} {}", first, second, third);
            }
        }
    }
}

#[test]
fn nothing_is_sent_after_a_refusal() {
    let mut connection = serving();
    let action = connection.step(Event::Received(b"GET /\r\n\r\n".to_vec()));
    assert!(matches!(action, Action::Reject(ParseError::InvalidStartLine)));
    for event in [
        Event::Received(b"GET / HTTP/1.1\r\n\r\n".to_vec()),
        Event::Loaded(Some("x".to_string())),
        Event::Stored(true),
        Event::Created(true),
        Event::Ended,
    ] {
        assert!(matches!(connection.step(event), Action::Close));
        assert!(closed(&connection));
    }
}
