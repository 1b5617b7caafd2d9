//! The server's startup options and the check on the served directory.
use crate::router::{classify, ResolvedTarget};
use std::path::PathBuf;
use vstd::prelude::*;

verus! {

#[verifier::external_type_specification]
#[verifier::external_body]
pub struct ExPathBuf(PathBuf);

/// The directory to serve and the port to listen on.
pub struct Opts {
    pub dir: PathBuf,
    pub port: u16,
}

/// Relies on std's Path::exists: whether the path exists on disk now.
#[verifier::external_body]
fn path_exists(path: &str) -> (r: bool) {
    std::path::Path::new(path).exists()
}

/// Relies on std's Path::is_dir: whether the path is a directory on disk now.
#[verifier::external_body]
fn path_is_dir(path: &str) -> (r: bool) {
    std::path::Path::new(path).is_dir()
}

/// Relies on std's From<&str> for PathBuf: the path of the given text.
#[verifier::external_body]
fn to_path_buf(path: &str) -> (r: PathBuf) {
    PathBuf::from(path)
}

/// The message of a rejected root directory.
pub open spec fn missing_dir_message() -> Seq<char> {
    "File does not exist"@
}

/// Accepts `path` as the served root when the disk reports an existing
/// directory there, and rejects it with a message otherwise.
pub fn verify_path(path: &str) -> (r: Result<PathBuf, &'static str>)
    ensures
        r is Err ==> r->Err_0@ == missing_dir_message(),
{
    let exists = path_exists(path);
    let is_dir = path_is_dir(path);
    match classify(true, exists, is_dir, String::from_str(path)) {
        ResolvedTarget::Directory(_) => Ok(to_path_buf(path)),
        _ => Err("File does not exist"),
    }
}

} // verus!
