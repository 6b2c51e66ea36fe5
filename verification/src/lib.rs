//! The protocol layer of a small HTTP/1.1 server, specified and verified with
//! Verus: requests are read off the wire, routed to a handful of handlers, and
//! answered in the wire format. A connection carries one request and at most
//! one response.
//!
//! Nothing here reads or writes. [`connection::Connection`] is a state
//! machine whose owner does the reading, the writing and the work on files,
//! and reports what came of it.
//!
//! - [`ascii`] and [`text`]: searching, trimming, case folding and numerals,
//!   on bytes and on text.
//! - [`status`]: status codes and their reason phrases.
//! - [`headers`]: the header map of a request.
//! - [`request`]: requests and the grammar by which they are parsed.
//! - [`response`]: responses and their wire format.
//! - [`route`]: routing, and the handlers that need nothing but the request.
//! - [`files`]: the rules of the routes that serve and store files.
//! - [`connection`]: the life of one connection.
//! - [`laws`]: what holds of all of these together.

pub mod ascii;
pub mod connection;
pub mod files;
pub mod headers;
pub mod laws;
pub mod request;
pub mod response;
pub mod route;
pub mod status;
pub mod text;
