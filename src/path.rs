//! The parts of a path that indexing reads, through `std::path`.
use vstd::prelude::*;

verus! {

/// The last component of a path, as `Path::file_name` gives it.
pub uninterp spec fn file_name_of(p: Seq<char>) -> Option<Seq<char>>;

/// The path without its last component, as `Path::parent` gives it.
pub uninterp spec fn parent_of(p: Seq<char>) -> Option<Seq<char>>;

/// The extension of a path, without the dot, as `Path::extension` gives it.
pub uninterp spec fn extension_of(p: Seq<char>) -> Option<Seq<char>>;

/// The base name of the directory that holds `p`.
pub open spec fn parent_name_of(p: Seq<char>) -> Option<Seq<char>> {
    match parent_of(p) {
        Some(q) => file_name_of(q),
        None => None,
    }
}

/// Relies on `std::path::Path::file_name`: the final component of a path
/// given as text, itself text.
#[verifier::external_body]
pub(crate) fn file_name(p: &str) -> (r: Option<String>)
    ensures
        r is Some <==> file_name_of(p@) is Some,
        r matches Some(s) ==> file_name_of(p@) == Some(s@),
{
    std::path::Path::new(p).file_name().map(|s| s.to_string_lossy().into_owned())
}

/// Relies on `std::path::Path::parent`: the path without its final component.
#[verifier::external_body]
pub(crate) fn parent(p: &str) -> (r: Option<String>)
    ensures
        r is Some <==> parent_of(p@) is Some,
        r matches Some(s) ==> parent_of(p@) == Some(s@),
{
    std::path::Path::new(p).parent().map(|q| q.to_string_lossy().into_owned())
}

/// Relies on `std::path::Path::extension`: what follows the last dot of the
/// file name, if there is one that does not start the name.
#[verifier::external_body]
pub(crate) fn extension(p: &str) -> (r: Option<String>)
    ensures
        r is Some <==> extension_of(p@) is Some,
        r matches Some(s) ==> extension_of(p@) == Some(s@),
{
    std::path::Path::new(p).extension().map(|s| s.to_string_lossy().into_owned())
}

/// The base name of the directory that holds `p`.
pub fn parent_name(p: &str) -> (r: Option<String>)
    ensures
        r is Some <==> parent_name_of(p@) is Some,
        r matches Some(s) ==> parent_name_of(p@) == Some(s@),
{
    match parent(p) {
        Some(q) => file_name(q.as_str()),
        None => None,
    }
}

} // verus!
