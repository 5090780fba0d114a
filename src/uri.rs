//! The `file:` URL under which a document is opened.
use vstd::prelude::*;

verus! {

/// The `file:` URL that the url crate builds for an absolute path.
pub uninterp spec fn file_url_of(path: Seq<char>) -> Seq<char>;

/// Whether `path` is absolute on Unix: it starts at the root.
pub open spec fn is_absolute(path: Seq<char>) -> bool {
    path.len() > 0 && path[0] == '/'
}

/// Why a path has no `file:` URL.
#[derive(Debug, Clone, Copy, PartialEq, Eq, Structural)]
pub enum UriError {
    /// The path is relative; only an absolute path names a file by URL.
    NotAbsolute,
}

/// Relies on `url::Url::from_file_path`: on Unix it fails exactly when the
/// path is not absolute, and otherwise serialises to `file://` followed by the
/// path's components (`Url::as_str`).
#[verifier::external_body]
fn url_from_file_path(path: &str) -> (r: Option<String>)
    ensures
        r is Some <==> is_absolute(path@),
        r matches Some(u) ==> u@ == file_url_of(path@),
        r matches Some(u) ==> u@.len() > 7 && u@.take(7) == seq!['f', 'i', 'l', 'e', ':', '/', '/'],
{
    url::Url::from_file_path(std::path::Path::new(path)).ok().map(|u| u.as_str().to_owned())
}

/// The URL under which the document at `path` is opened: its `file:` URL,
/// which exists exactly when the path is absolute.
pub fn document_uri(path: &str) -> (r: Result<String, UriError>)
    ensures
        r is Ok <==> is_absolute(path@),
        !is_absolute(path@) ==> r == Err::<String, UriError>(UriError::NotAbsolute),
        r matches Ok(u) ==> u@ == file_url_of(path@),
        r matches Ok(u) ==> u@.take(7) == seq!['f', 'i', 'l', 'e', ':', '/', '/'],
{
    match url_from_file_path(path) {
        Some(u) => Ok(u),
        None => Err(UriError::NotAbsolute),
    }
}

} // verus!
