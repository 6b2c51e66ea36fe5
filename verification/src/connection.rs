//! One connection, from its first byte to its close, as a state machine.
//!
//! The machine reads nothing and writes nothing. Its owner performs each
//! [`Action`] and hands back what came of it as an [`Event`]; the machine
//! decides what is to be done next. A connection carries one request and at
//! most one response.

use vstd::prelude::*;
use vstd::string::*;

use crate::files::{
    components, file_name, file_name_of, get_file, lies_within, post_file, read_answer, within,
    write_answer,
};
use crate::request::{parsed, Method, ParseError, Request};
use crate::response::{wire_bytes, Response, ResponseView};
use crate::route::{answer, bare, dispatch, route_of, status_only, Route};
use crate::status::StatusCode;

verus! {

/// Where a connection stands.
#[derive(Debug)]
pub enum Stage {
    /// Waiting for bytes of the request; holds those received so far.
    Receiving(Vec<u8>),
    /// Waiting for the location of the file that a `GET` asks for.
    Locating,
    /// Waiting for the contents of that file.
    Loading,
    /// Waiting for the file of a `POST` to be created; holds the request's body.
    Creating(Option<Vec<u8>>),
    /// Waiting for the body to be written to that file.
    Storing,
    /// Waiting for the response to be sent.
    Sending,
    /// Done.
    Closed,
}

/// What the owner of a connection reports.
#[derive(Debug)]
pub enum Event {
    /// More bytes have arrived.
    Received(Vec<u8>),
    /// The peer will send no more, or reading failed.
    Ended,
    /// The file asked for lies at this canonical location, or does not exist.
    Located(Option<Vec<String>>),
    /// The file's contents, or nothing where it could not be read.
    Loaded(Option<String>),
    /// Whether the file was created.
    Created(bool),
    /// Whether the body was written.
    Stored(bool),
    /// Whether the response was sent.
    Sent(bool),
}

/// What the owner of a connection is to do next.
#[derive(Debug)]
pub enum Action {
    /// Read more bytes and report `Received`, or `Ended`.
    Receive,
    /// Resolve the file of this name under the served directory to its
    /// canonical location and report `Located`.
    Locate(String),
    /// Read the file that was located and report `Loaded`.
    Load,
    /// Create the file of this name under the served directory, emptying it if
    /// it exists, and report `Created`.
    Create(String),
    /// Write these bytes to the file that was created and report `Stored`.
    Store(Vec<u8>),
    /// Send these bytes and report `Sent`.
    Send(Vec<u8>),
    /// Close the connection without a response: the request was refused.
    Reject(ParseError),
    /// Close the connection.
    Close,
}

/// A stage, as plain mathematical values.
pub enum StageView {
    Receiving(Seq<u8>),
    Locating,
    Loading,
    Creating(Option<Seq<u8>>),
    Storing,
    Sending,
    Closed,
}

/// An event, as plain mathematical values.
pub enum EventView {
    Received(Seq<u8>),
    Ended,
    Located(Option<Seq<Seq<char>>>),
    Loaded(Option<Seq<char>>),
    Created(bool),
    Stored(bool),
    Sent(bool),
}

/// An action, as plain mathematical values.
pub enum ActionView {
    Receive,
    Locate(Seq<char>),
    Load,
    Create(Seq<char>),
    Store(Seq<u8>),
    Send(Seq<u8>),
    Reject(ParseError),
    Close,
}

impl View for Stage {
    type V = StageView;

    open spec fn view(&self) -> StageView {
        match self {
            Stage::Receiving(buffer) => StageView::Receiving(buffer@),
            Stage::Locating => StageView::Locating,
            Stage::Loading => StageView::Loading,
            Stage::Creating(Some(body)) => StageView::Creating(Some(body@)),
            Stage::Creating(None) => StageView::Creating(None),
            Stage::Storing => StageView::Storing,
            Stage::Sending => StageView::Sending,
            Stage::Closed => StageView::Closed,
        }
    }
}

impl View for Event {
    type V = EventView;

    open spec fn view(&self) -> EventView {
        match self {
            Event::Received(bytes) => EventView::Received(bytes@),
            Event::Ended => EventView::Ended,
            Event::Located(Some(location)) => EventView::Located(Some(components(location@))),
            Event::Located(None) => EventView::Located(None),
            Event::Loaded(Some(text)) => EventView::Loaded(Some(text@)),
            Event::Loaded(None) => EventView::Loaded(None),
            Event::Created(done) => EventView::Created(*done),
            Event::Stored(done) => EventView::Stored(*done),
            Event::Sent(done) => EventView::Sent(*done),
        }
    }
}

impl View for Action {
    type V = ActionView;

    open spec fn view(&self) -> ActionView {
        match self {
            Action::Receive => ActionView::Receive,
            Action::Locate(name) => ActionView::Locate(name@),
            Action::Load => ActionView::Load,
            Action::Create(name) => ActionView::Create(name@),
            Action::Store(bytes) => ActionView::Store(bytes@),
            Action::Send(bytes) => ActionView::Send(bytes@),
            Action::Reject(error) => ActionView::Reject(*error),
            Action::Close => ActionView::Close,
        }
    }
}

/// A connection: the served directory, if there is one, as the components of
/// its canonical location, and the stage that the connection is at.
#[derive(Debug)]
pub struct Connection {
    pub root: Option<Vec<String>>,
    pub stage: Stage,
}

/// A connection, as plain mathematical values.
pub struct ConnectionView {
    pub root: Option<Seq<Seq<char>>>,
    pub stage: StageView,
}

impl View for Connection {
    type V = ConnectionView;

    open spec fn view(&self) -> ConnectionView {
        ConnectionView {
            root: match self.root {
                Some(root) => Some(components(root@)),
                None => None,
            },
            stage: self.stage@,
        }
    }
}

/// A response is sent, and the connection waits for that to end.
pub open spec fn reply(response: ResponseView) -> (StageView, ActionView) {
    (StageView::Sending, ActionView::Send(wire_bytes(response)))
}

/// What follows once `buffer` is all that has been received.
///
/// While the request is incomplete, more is read. A request that cannot be
/// parsed is refused, and nothing is sent. A request that stands is routed:
/// it is answered at once, or its file is looked for or created first.
pub open spec fn on_bytes(serving: bool, buffer: Seq<u8>) -> (StageView, ActionView) {
    match parsed(buffer) {
        Err(ParseError::IncompleteRequest) => (StageView::Receiving(buffer), ActionView::Receive),
        Err(error) => (StageView::Closed, ActionView::Reject(error)),
        Ok(request) => match route_of(request.method, request.path, serving) {
            Route::GetFile => (StageView::Locating, ActionView::Locate(file_name_of(request.path))),
            Route::PostFile => (
                StageView::Creating(request.body),
                ActionView::Create(file_name_of(request.path)),
            ),
            _ => reply(answer(request, serving).unwrap()),
        },
    }
}

/// What follows once the file of a `GET` has been looked for: it is read if
/// it exists and lies within the served directory, and else the answer is
/// `404 Not Found`.
pub open spec fn on_located(root: Option<Seq<Seq<char>>>, location: Option<Seq<Seq<char>>>) -> (
    StageView,
    ActionView,
) {
    match (root, location) {
        (Some(root), Some(location)) => if within(root, location) {
            (StageView::Loading, ActionView::Load)
        } else {
            reply(bare(404))
        },
        _ => reply(bare(404)),
    }
}

/// What follows once the file of a `POST` was to be created: the body is
/// written if the file is there and the body is not empty, and else the answer
/// is `500 Internal Server Error`.
pub open spec fn on_created(body: Option<Seq<u8>>, created: bool) -> (StageView, ActionView) {
    match body {
        Some(bytes) => if created && bytes.len() > 0 {
            (StageView::Storing, ActionView::Store(bytes))
        } else {
            reply(write_answer(false))
        },
        None => reply(write_answer(false)),
    }
}

/// The stage and the action that follow an event. An event that the stage
/// does not wait for closes the connection.
pub open spec fn step_of(connection: ConnectionView, event: EventView) -> (StageView, ActionView) {
    match (connection.stage, event) {
        (StageView::Receiving(buffer), EventView::Received(bytes)) => on_bytes(
            connection.root is Some,
            buffer + bytes,
        ),
        (StageView::Receiving(_), EventView::Ended) => (
            StageView::Closed,
            ActionView::Reject(ParseError::IncompleteRequest),
        ),
        (StageView::Locating, EventView::Located(location)) => on_located(
            connection.root,
            location,
        ),
        (StageView::Loading, EventView::Loaded(contents)) => reply(read_answer(contents)),
        (StageView::Creating(body), EventView::Created(created)) => on_created(body, created),
        (StageView::Storing, EventView::Stored(stored)) => reply(write_answer(stored)),
        _ => (StageView::Closed, ActionView::Close),
    }
}

/// Sends a response.
fn send(response: Response) -> (r: (Stage, Action))
    ensures
        (r.0@, r.1@) == reply(response@),
{
    (Stage::Sending, Action::Send(response.as_bytes()))
}

/// Decides what follows once `buffer` is all that has been received.
fn receive(serving: bool, buffer: Vec<u8>) -> (r: (Stage, Action))
    ensures
        (r.0@, r.1@) == on_bytes(serving, buffer@),
{
    match Request::parse(buffer.as_slice()) {
        Err(ParseError::IncompleteRequest) => (Stage::Receiving(buffer), Action::Receive),
        Err(error) => (Stage::Closed, Action::Reject(error)),
        Ok(request) => match dispatch(&request, serving) {
            Some(response) => send(response),
            None => {
                let name: String = file_name(&request);
                match request.method {
                    Method::GET => (Stage::Locating, Action::Locate(name)),
                    Method::POST => (Stage::Creating(request.body), Action::Create(name)),
                }
            },
        },
    }
}

impl Connection {
    /// A connection that waits for the first bytes of its request.
    pub fn new(root: Option<Vec<String>>) -> (connection: Connection)
        ensures
            connection.root == root,
            connection.stage@ == StageView::Receiving(Seq::<u8>::empty()),
    {
        Connection { root, stage: Stage::Receiving(Vec::new()) }
    }

    /// Takes an event and says what is to be done next.
    pub fn step(&mut self, event: Event) -> (action: Action)
        ensures
            final(self).root == old(self).root,
            (final(self).stage@, action@) == step_of(old(self)@, event@),
    {
        let mut stage: Stage = Stage::Closed;
        core::mem::swap(&mut self.stage, &mut stage);
        let (next, action): (Stage, Action) = match stage {
            Stage::Receiving(mut buffer) => match event {
                Event::Received(mut bytes) => {
                    buffer.append(&mut bytes);
                    receive(self.root.is_some(), buffer)
                },
                Event::Ended => (Stage::Closed, Action::Reject(ParseError::IncompleteRequest)),
                _ => (Stage::Closed, Action::Close),
            },
            Stage::Locating => match event {
                Event::Located(location) => {
                    let inside: bool = match (&self.root, &location) {
                        (Some(root), Some(location)) => lies_within(root, location),
                        _ => false,
                    };
                    if inside {
                        (Stage::Loading, Action::Load)
                    } else {
                        send(status_only(StatusCode::not_found()))
                    }
                },
                _ => (Stage::Closed, Action::Close),
            },
            Stage::Loading => match event {
                Event::Loaded(contents) => send(get_file(contents)),
                _ => (Stage::Closed, Action::Close),
            },
            Stage::Creating(body) => match event {
                Event::Created(created) => match body {
                    Some(bytes) => if created && bytes.len() > 0 {
                        (Stage::Storing, Action::Store(bytes))
                    } else {
                        send(post_file(false))
                    },
                    None => send(post_file(false)),
                },
                _ => (Stage::Closed, Action::Close),
            },
            Stage::Storing => match event {
                Event::Stored(stored) => send(post_file(stored)),
                _ => (Stage::Closed, Action::Close),
            },
            Stage::Sending => (Stage::Closed, Action::Close),
            Stage::Closed => (Stage::Closed, Action::Close),
        };
        self.stage = next;
        action
    }
}

} // verus!
