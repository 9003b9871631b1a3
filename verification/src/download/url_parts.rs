//! What the library reads of URLs and paths, from `url` and `std::path`.

use vstd::prelude::*;

verus! {

/// The `Url` type of the `url` crate, carried as an opaque value.
#[verifier::external_type_specification]
#[verifier::external_body]
pub struct ExUrl(url::Url);

/// The `PathBuf` type of `std::path`, carried as an opaque value.
#[verifier::external_type_specification]
#[verifier::external_body]
pub struct ExPathBuf(std::path::PathBuf);

/// The '/'-separated path segments that `Url::path_segments` yields for `url`,
/// or `None` for a URL that cannot be a base.
pub uninterp spec fn url_path_segments(url: url::Url) -> Option<Seq<Seq<char>>>;

/// The texts of a list of segments.
pub open spec fn segments_view(r: Option<Vec<String>>) -> Option<Seq<Seq<char>>> {
    match r {
        Some(v) => Some(v@.map_values(|s: String| s@)),
        None => None,
    }
}

/// Calls `url::Url::path_segments` and collects the segments as strings. The
/// contract names the result; the crate documents that when it is `Some`, it
/// holds at least one segment (which may be empty).
#[verifier::external_body]
pub fn path_segments(url: &url::Url) -> (r: Option<Vec<String>>)
    ensures
        segments_view(r) == url_path_segments(*url),
        r matches Some(v) ==> v@.len() >= 1,
{
    url.path_segments().map(|segments| segments.map(|s| s.to_string()).collect())
}

/// The path that `PathBuf::join` makes of `dir` and `name`.
pub uninterp spec fn joined_path(dir: std::path::PathBuf, name: Seq<char>) -> std::path::PathBuf;

/// Calls `std::path::PathBuf::join`; the contract names the path it returns.
#[verifier::external_body]
pub fn path_join(dir: &std::path::PathBuf, name: &String) -> (r: std::path::PathBuf)
    ensures
        r == joined_path(*dir, name@),
{
    dir.join(name)
}

} // verus!
