//! Routing: which handler a request goes to, and the handlers that answer
//! from the request alone.

use vstd::prelude::*;
use vstd::string::*;

use crate::request::{Method, Request, RequestView};
use crate::response::{header_views, Response, ResponseView};
use crate::status::StatusCode;
use crate::text::{rest, same_text, skip, starts_with, trim, trimmed};

verus! {

/// The handlers.
#[derive(Debug, Clone, Copy, PartialEq, Eq, Structural)]
pub enum Route {
    /// `GET /`.
    Root,
    /// `GET /echo/...`: answers with the rest of the path.
    Echo,
    /// `GET /user-agent...`: answers with the `User-Agent` header.
    UserAgent,
    /// `GET /files/...`: answers with a file of the served directory.
    GetFile,
    /// `POST /files/...`: stores the body as a file of the served directory.
    PostFile,
    /// Everything else.
    NotFound,
}

/// The handler for a method and a path. The rules are tried in this order,
/// and the file routes exist only where a directory is served.
pub open spec fn route_of(method: Method, path: Seq<char>, serving: bool) -> Route {
    if method == Method::GET && path == "/"@ {
        Route::Root
    } else if method == Method::GET && "/echo/"@.is_prefix_of(path) {
        Route::Echo
    } else if method == Method::GET && "/user-agent"@.is_prefix_of(path) {
        Route::UserAgent
    } else if method == Method::GET && "/files/"@.is_prefix_of(path) && serving {
        Route::GetFile
    } else if method == Method::POST && "/files/"@.is_prefix_of(path) && serving {
        Route::PostFile
    } else {
        Route::NotFound
    }
}

/// A response with nothing but a status.
pub open spec fn bare(status: u16) -> ResponseView {
    ResponseView { status, headers: None, body: None }
}

/// A `200 OK` response with one header, the type of its content, and a body.
pub open spec fn content(content_type: Seq<char>, body: Seq<char>) -> ResponseView {
    ResponseView {
        status: 200,
        headers: Some(seq![("Content-Type"@, content_type)]),
        body: Some(body),
    }
}

/// The value of the header named `name` once both are trimmed, or the empty
/// text where the request has no such header.
pub open spec fn header_text(headers: Option<Map<Seq<char>, Seq<char>>>, name: Seq<char>) -> Seq<
    char,
> {
    match headers {
        Some(headers) => if headers.contains_key(trimmed(name)) {
            trimmed(headers[trimmed(name)])
        } else {
            Seq::empty()
        },
        None => Seq::empty(),
    }
}

/// The answer of the echo route: the text that follows the `/echo/` at the
/// start of the path.
pub open spec fn echo_answer(path: Seq<char>) -> ResponseView {
    content("text/plain"@, rest(path, "/echo/"@.len() as int))
}

/// The answer of a route that echoes the header named `name`.
pub open spec fn header_answer(
    headers: Option<Map<Seq<char>, Seq<char>>>,
    name: Seq<char>,
) -> ResponseView {
    content("text/plain"@, header_text(headers, name))
}

/// The answer to a request that is answered from the request alone, and
/// nothing for a request that goes to a file route.
pub open spec fn answer(request: RequestView, serving: bool) -> Option<ResponseView> {
    match route_of(request.method, request.path, serving) {
        Route::Root => Some(bare(200)),
        Route::Echo => Some(echo_answer(request.path)),
        Route::UserAgent => Some(header_answer(request.headers, "user-agent"@)),
        Route::NotFound => Some(bare(404)),
        Route::GetFile => None,
        Route::PostFile => None,
    }
}

/// Finds the handler of a request.
pub fn route(request: &Request, serving: bool) -> (r: Route)
    ensures
        r == route_of(request.method, request.path@, serving),
{
    let path: &str = request.path.as_str();
    match request.method {
        Method::GET => {
            if same_text(path, "/") {
                Route::Root
            } else if starts_with(path, "/echo/") {
                Route::Echo
            } else if starts_with(path, "/user-agent") {
                Route::UserAgent
            } else if serving && starts_with(path, "/files/") {
                Route::GetFile
            } else {
                Route::NotFound
            }
        },
        Method::POST => {
            if serving && starts_with(path, "/files/") {
                Route::PostFile
            } else {
                Route::NotFound
            }
        },
    }
}

/// A response with nothing but a status.
pub fn status_only(status_code: StatusCode) -> (r: Response)
    ensures
        r@ == bare(status_code@),
{
    Response::new(status_code, None, None)
}

/// A `200 OK` response with a body and the type of its content.
pub fn with_content(content_type: &str, body: String) -> (r: Response)
    ensures
        r@ == content(content_type@, body@),
{
    let mut headers: Vec<(String, String)> = Vec::new();
    headers.push(("Content-Type".to_owned(), content_type.to_owned()));
    assert(header_views(headers@) =~= seq![("Content-Type"@, content_type@)]);
    Response::new(StatusCode::ok(), Some(headers), Some(body))
}

/// Answers with what follows the `/echo/` at the start of the path, as it
/// stands: the path without as many characters as `/echo/` has.
pub fn echo_msg(request: &Request) -> (r: Response)
    ensures
        r@ == echo_answer(request.path@),
{
    let body: &str = skip(request.path.as_str(), "/echo/".unicode_len());
    with_content("text/plain", body.to_owned())
}

/// Answers with the trimmed value of the header named `header`, or with an
/// empty body where the request has no such header.
pub fn echo_header(request: &Request, header: &str) -> (r: Response)
    ensures
        r@ == header_answer(request@.headers, header@),
{
    let body: String = match &request.headers {
        Some(headers) => match headers.get(trim(header)) {
            Some(value) => trim(value.as_str()).to_owned(),
            None => String::new(),
        },
        None => String::new(),
    };
    with_content("text/plain", body)
}

/// Answers a request that can be answered from the request alone, and gives
/// nothing for a request that goes to a file route.
pub fn dispatch(request: &Request, serving: bool) -> (r: Option<Response>)
    ensures
        match r {
            Some(response) => answer(request@, serving) == Some(response@),
            None => answer(request@, serving) is None,
        },
{
    match route(request, serving) {
        Route::Root => Some(status_only(StatusCode::ok())),
        Route::Echo => Some(echo_msg(request)),
        Route::UserAgent => Some(echo_header(request, "user-agent")),
        Route::NotFound => Some(status_only(StatusCode::not_found())),
        Route::GetFile => None,
        Route::PostFile => None,
    }
}

} // verus!
