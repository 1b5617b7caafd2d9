//! Classification of a resolved path and the per-request steps from a
//! target to an HTTP response.
use crate::listing::{listing_spec, render_listing, DirEntry};
use crate::path::{is_descendant, join_under_spec, request_segments, request_target, string_views};
use vstd::prelude::*;

verus! {

/// Where a request path leads after normalization and the containment check.
pub enum ResolvedTarget {
    NotFound,
    Directory(String),
    File(String),
}

/// The first step of a request: answered at once, or a path under the root
/// to look up on disk, with the request's normalized segments.
pub enum Lookup {
    Reply(Response),
    Check { segments: Vec<String>, path: String },
}

/// What the handler must do next for a target.
pub enum Step {
    Reply(Response),
    ListDir(String),
    ReadFile(String),
}

/// A response of the core: a missing target, an index page, a file with its
/// content type, or an I/O failure with its description.
pub enum Response {
    NotFound,
    Listing(String),
    File { content_type: String, bytes: Vec<u8> },
    ServerError(String),
}

pub open spec fn status_spec(r: Response) -> u16 {
    match r {
        Response::NotFound => 404,
        Response::Listing(_) => 200,
        Response::File { .. } => 200,
        Response::ServerError(_) => 500,
    }
}

impl Response {
    /// The HTTP status code of the response.
    pub fn status(&self) -> (r: u16)
        ensures
            r == status_spec(*self),
    {
        match self {
            Response::NotFound => 404,
            Response::Listing(_) => 200,
            Response::File { .. } => 200,
            Response::ServerError(_) => 500,
        }
    }
}

/// The content type that mime_guess gives a file name.
pub uninterp spec fn mime_of(name: Seq<char>) -> Seq<char>;

/// Relies on mime_guess::from_path and MimeGuess::first_or_text_plain: the
/// first MIME type known for the name's extension, `text/plain` when there is
/// none; it reads the name only, not the disk.
#[verifier::external_body]
fn guess_mime(name: &str) -> (r: String)
    ensures
        r@ == mime_of(name@),
{
    mime_guess::from_path(name).first_or_text_plain().to_string()
}

/// The content type of a file, inferred from its name.
pub fn content_type_of(name: &str) -> (r: String)
    ensures
        r@ == mime_of(name@),
{
    guess_mime(name)
}

/// Starts a request: one that climbs above the root is not found; any other
/// leads to the path of its normalized segments under `root`.
pub fn lookup(root: &str, request: &str) -> (r: Lookup)
    ensures
        request_segments(request@) is None ==> r == Lookup::Reply(Response::NotFound)
            && status_spec(Response::NotFound) == 404,
        request_segments(request@) is Some ==> r is Check && Some(
            string_views(r->Check_segments@),
        ) == request_segments(request@) && r->Check_path@ == join_under_spec(
            root@,
            string_views(r->Check_segments@),
        ) && is_descendant(root@, r->Check_path@),
{
    match request_target(root, request) {
        None => Lookup::Reply(Response::NotFound),
        Some((segments, path)) => Lookup::Check { segments, path },
    }
}

/// Classifies a path from what the filesystem said of it: whether its
/// canonical form lies under the root, whether it exists, whether it is a
/// directory. A path outside the root is never served.
pub fn classify(contained: bool, exists: bool, is_dir: bool, path: String) -> (r: ResolvedTarget)
    ensures
        !(contained && exists) ==> r is NotFound,
        contained && exists && is_dir ==> r == ResolvedTarget::Directory(path),
        contained && exists && !is_dir ==> r == ResolvedTarget::File(path),
{
    if !(contained && exists) {
        ResolvedTarget::NotFound
    } else if is_dir {
        ResolvedTarget::Directory(path)
    } else {
        ResolvedTarget::File(path)
    }
}

/// The next step for a target: a missing target is answered at once; a
/// directory is listed; a file is read.
pub fn route(t: ResolvedTarget) -> (r: Step)
    ensures
        t is NotFound ==> r == Step::Reply(Response::NotFound) && status_spec(Response::NotFound)
            == 404,
        t is Directory ==> r == Step::ListDir(t->Directory_0),
        t is File ==> r == Step::ReadFile(t->File_0),
{
    match t {
        ResolvedTarget::NotFound => Step::Reply(Response::NotFound),
        ResolvedTarget::Directory(p) => Step::ListDir(p),
        ResolvedTarget::File(p) => Step::ReadFile(p),
    }
}

/// The response once a directory was listed: the page, or a server error
/// carrying the failure's description.
pub fn listing_response(listed: Result<String, String>) -> (r: Response)
    ensures
        listed is Ok ==> r == Response::Listing(listed->Ok_0) && status_spec(r) == 200,
        listed is Err ==> r == Response::ServerError(listed->Err_0) && status_spec(r) == 500,
{
    match listed {
        Ok(page) => Response::Listing(page),
        Err(e) => Response::ServerError(e),
    }
}

/// The response once the entries of the directory at `rel` were read: its
/// index page, or a server error when enumerating them failed.
pub fn listing_page(rel: &Vec<String>, entries: Result<Vec<DirEntry>, String>) -> (r: Response)
    ensures
        entries is Ok ==> r is Listing && r->Listing_0@ == listing_spec(
            string_views(rel@),
            entries->Ok_0@,
        ) && status_spec(r) == 200,
        entries is Err ==> r == Response::ServerError(entries->Err_0) && status_spec(r) == 500,
{
    match entries {
        Ok(list) => listing_response(Ok(render_listing(rel, &list))),
        Err(e) => listing_response(Err(e)),
    }
}

/// The response once a file was read, given its content type: its exact
/// bytes, or a server error when the read failed (also when the file went
/// away after it was classified).
pub fn file_response_typed(content_type: String, read: Result<Vec<u8>, String>) -> (r: Response)
    ensures
        read is Ok ==> r == (Response::File { content_type, bytes: read->Ok_0 }) && status_spec(r)
            == 200,
        read is Err ==> r == Response::ServerError(read->Err_0) && status_spec(r) == 500,
{
    match read {
        Ok(bytes) => Response::File { content_type, bytes },
        Err(e) => Response::ServerError(e),
    }
}

/// The response once the file at `path` was read: its exact bytes with the
/// content type of its name, or a server error when the read failed.
pub fn file_response(path: &str, read: Result<Vec<u8>, String>) -> (r: Response)
    ensures
        read is Ok ==> r is File && r->File_bytes == read->Ok_0 && r->File_content_type@ == mime_of(
            path@,
        ),
        read is Ok ==> status_spec(r) == 200,
        read is Err ==> r == Response::ServerError(read->Err_0) && status_spec(r) == 500,
{
    let content_type = content_type_of(path);
    file_response_typed(content_type, read)
}

} // verus!
