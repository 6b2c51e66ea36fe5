//! The registry of HTTP status codes and their reason phrases.

use vstd::prelude::*;
use vstd::string::*;

use crate::text::{decimal, push_decimal};

verus! {

/// The reason phrase registered for `code`, if there is one.
pub open spec fn reason_phrase(code: u16) -> Option<Seq<char>> {
    if code == 200 {
        Some("OK"@)
    } else if code == 201 {
        Some("Created"@)
    } else if code == 404 {
        Some("Not Found"@)
    } else if code == 500 {
        Some("Internal Server Error"@)
    } else {
        None
    }
}

/// The phrase that stands for the reason of a code that has none registered.
pub open spec fn placeholder() -> Seq<char> {
    "<unknown status code>"@
}

/// The text of a status: its number, a space, and its reason phrase or the
/// placeholder.
pub open spec fn status_text(code: u16) -> Seq<char> {
    decimal(code as nat) + " "@ + match reason_phrase(code) {
        Some(phrase) => phrase,
        None => placeholder(),
    }
}

/// Whether `num` lies in the range of three-digit status codes.
pub open spec fn is_status_code(num: u16) -> bool {
    100 <= num <= 999
}

/// A three-digit HTTP status code.
#[derive(Clone, Copy, PartialEq, Eq, Structural, PartialOrd, Ord, Hash, Debug)]
pub struct StatusCode(u16);

/// The error of [`StatusCode::from_u16`] for a number outside `100..=999`.
#[derive(Debug)]
pub struct InvalidStatusCode {
    _priv: (),
}

impl View for StatusCode {
    type V = u16;

    closed spec fn view(&self) -> u16 {
        self.0
    }
}

impl StatusCode {
    #[verifier::type_invariant]
    spec fn in_range(&self) -> bool {
        is_status_code(self.0)
    }

    /// `200 OK`.
    pub fn ok() -> (code: StatusCode)
        ensures
            code@ == 200,
    {
        StatusCode(200)
    }

    /// `201 Created`.
    pub fn created() -> (code: StatusCode)
        ensures
            code@ == 201,
    {
        StatusCode(201)
    }

    /// `404 Not Found`.
    pub fn not_found() -> (code: StatusCode)
        ensures
            code@ == 404,
    {
        StatusCode(404)
    }

    /// `500 Internal Server Error`.
    pub fn internal_server_error() -> (code: StatusCode)
        ensures
            code@ == 500,
    {
        StatusCode(500)
    }

    /// The status code with the number `num`, which must have three digits.
    pub fn from_u16(num: u16) -> (r: Result<StatusCode, InvalidStatusCode>)
        ensures
            r is Ok <==> is_status_code(num),
            r matches Ok(code) ==> code@ == num,
    {
        if num < 100 || num >= 1000 {
            Err(InvalidStatusCode::new())
        } else {
            Ok(StatusCode(num))
        }
    }

    /// The number of this code.
    pub fn as_u16(&self) -> (num: u16)
        ensures
            num == self@,
            is_status_code(num),
    {
        proof {
            use_type_invariant(self);
        }
        self.0
    }

    /// The reason phrase registered for this code.
    pub fn reason(&self) -> (r: Option<&'static str>)
        ensures
            r is Some <==> reason_phrase(self@) is Some,
            r matches Some(phrase) ==> Some(phrase@) == reason_phrase(self@),
    {
        match self.0 {
            200 => Some("OK"),
            201 => Some("Created"),
            404 => Some("Not Found"),
            500 => Some("Internal Server Error"),
            _ => None,
        }
    }

    /// The status as it stands in a status line: `404 Not Found`.
    pub fn as_string(&self) -> (s: String)
        ensures
            s@ == status_text(self@),
    {
        let mut s = String::new();
        push_decimal(&mut s, self.0 as usize);
        s.append(" ");
        match self.reason() {
            Some(phrase) => s.append(phrase),
            None => s.append("<unknown status code>"),
        }
        s
    }
}

impl InvalidStatusCode {
    /// The error.
    pub fn new() -> InvalidStatusCode {
        InvalidStatusCode { _priv: () }
    }

    /// What the error says.
    pub fn as_string(&self) -> (s: String)
        ensures
            s@ == "invalid status code"@,
    {
        "invalid status code".to_owned()
    }
}

} // verus!
