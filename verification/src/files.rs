//! The rules of the file routes: which file a request names, whether a
//! location lies within the served directory, and how the outcome of reading
//! or writing the file is answered.
//!
//! The file system itself is not touched here. A location is the list of the
//! components of a canonical absolute path.

use vstd::prelude::*;
use vstd::string::*;

use crate::request::Request;
use crate::response::{Response, ResponseView};
use crate::route::{bare, content, status_only, with_content};
use crate::status::StatusCode;
use crate::text::{rest, same_text, skip};

verus! {

/// The components of a location as character sequences.
pub open spec fn components(location: Seq<String>) -> Seq<Seq<char>> {
    Seq::new(location.len(), |i: int| location[i]@)
}

/// Whether `location` is `root` or lies below it: component by component,
/// `root` is where `location` starts.
pub open spec fn within(root: Seq<Seq<char>>, location: Seq<Seq<char>>) -> bool {
    root.is_prefix_of(location)
}

/// The name of the file that a path of a file route asks for: what follows
/// the `/files/` at its start.
pub open spec fn file_name_of(path: Seq<char>) -> Seq<char> {
    rest(path, "/files/"@.len() as int)
}

/// The answer to a `GET` of a file: its contents, or `404 Not Found` where it
/// could not be read.
pub open spec fn read_answer(contents: Option<Seq<char>>) -> ResponseView {
    match contents {
        Some(text) => content("application/octet-stream"@, text),
        None => bare(404),
    }
}

/// The answer to a `POST` of a file: `201 Created` where it was stored, and
/// `500 Internal Server Error` where it was not.
pub open spec fn write_answer(stored: bool) -> ResponseView {
    if stored {
        bare(201)
    } else {
        bare(500)
    }
}

/// The name of the file that a request to a file route asks for: its path
/// without as many characters as `/files/` has.
pub fn file_name(request: &Request) -> (name: String)
    ensures
        name@ == file_name_of(request.path@),
{
    skip(request.path.as_str(), "/files/".unicode_len()).to_owned()
}

/// Whether `location` is `root` or lies below it.
pub fn lies_within(root: &Vec<String>, location: &Vec<String>) -> (r: bool)
    ensures
        r == within(components(root@), components(location@)),
{
    let n: usize = root.len();
    if location.len() < n {
        return false;
    }
    let mut i: usize = 0;
    while i < n
        invariant
            i <= n,
            n == root@.len(),
            n <= location@.len(),
            forall|j: int| 0 <= j < i ==> root@[j]@ == location@[j]@,
        decreases n - i,
    {
        if !same_text(root[i].as_str(), location[i].as_str()) {
            assert(components(root@)[i as int] != components(location@)[i as int]);
            return false;
        }
        i += 1;
    }
    assert(components(location@).subrange(0, n as int) =~= components(root@));
    true
}

/// Answers a `GET` of a file with its contents, if it was read.
pub fn get_file(contents: Option<String>) -> (r: Response)
    ensures
        r@ == read_answer(
            match contents {
                Some(text) => Some(text@),
                None => None,
            },
        ),
{
    match contents {
        Some(text) => with_content("application/octet-stream", text),
        None => status_only(StatusCode::not_found()),
    }
}

/// Answers a `POST` of a file by whether it was stored.
pub fn post_file(stored: bool) -> (r: Response)
    ensures
        r@ == write_answer(stored),
{
    if stored {
        status_only(StatusCode::created())
    } else {
        status_only(StatusCode::internal_server_error())
    }
}

} // verus!
