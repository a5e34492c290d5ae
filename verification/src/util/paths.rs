//! File paths as strings, read and combined by `std::path`.

use vstd::prelude::*;
use std::path::Path;

verus! {

/// What `Path::extension` yields for a path, as text.
pub uninterp spec fn extension_of(p: Seq<char>) -> Option<Seq<char>>;

/// What `Path::file_name` yields for a path, as text.
pub uninterp spec fn file_name_of(p: Seq<char>) -> Option<Seq<char>>;

/// What `Path::parent` yields for a path, as text.
pub uninterp spec fn parent_of(p: Seq<char>) -> Option<Seq<char>>;

/// Whether `Path` compares two paths equal (component-wise).
pub uninterp spec fn same_path(a: Seq<char>, b: Seq<char>) -> bool;

/// What `Path::is_absolute` says of a path.
pub uninterp spec fn is_absolute_path(p: Seq<char>) -> bool;

/// What `Path::join` yields, as text.
pub uninterp spec fn joined(a: Seq<char>, b: Seq<char>) -> Seq<char>;

/// What `str::to_lowercase` yields.
pub uninterp spec fn lowercase_of(s: Seq<char>) -> Seq<char>;

/// `Path::extension`, when it is valid Unicode.
#[verifier::external_body]
pub(crate) fn path_extension(p: &str) -> (r: Option<String>)
    ensures
        r matches Some(e) ==> extension_of(p@) == Some(e@),
        r is None ==> extension_of(p@) is None,
{
    Path::new(p).extension().and_then(|e| e.to_str()).map(|e| e.to_string())
}

/// `Path::file_name`, when it is valid Unicode.
#[verifier::external_body]
pub(crate) fn path_file_name(p: &str) -> (r: Option<String>)
    ensures
        r matches Some(e) ==> file_name_of(p@) == Some(e@),
        r is None ==> file_name_of(p@) is None,
{
    Path::new(p).file_name().and_then(|e| e.to_str()).map(|e| e.to_string())
}

/// `Path::parent`, as text.
#[verifier::external_body]
pub(crate) fn path_parent(p: &str) -> (r: Option<String>)
    ensures
        r matches Some(e) ==> parent_of(p@) == Some(e@),
        r is None ==> parent_of(p@) is None,
{
    Path::new(p).parent().map(|e| e.to_string_lossy().to_string())
}

/// `Path` equality.
#[verifier::external_body]
pub(crate) fn paths_equal(a: &str, b: &str) -> (r: bool)
    ensures
        r == same_path(a@, b@),
{
    Path::new(a) == Path::new(b)
}

/// `Path::is_absolute`.
#[verifier::external_body]
pub(crate) fn path_is_absolute(p: &str) -> (r: bool)
    ensures
        r == is_absolute_path(p@),
{
    Path::new(p).is_absolute()
}

/// `Path::join`, as text.
#[verifier::external_body]
pub(crate) fn path_join(a: &str, b: &str) -> (r: String)
    ensures
        r@ == joined(a@, b@),
{
    Path::new(a).join(b).to_string_lossy().to_string()
}

/// `str::to_lowercase`.
#[verifier::external_body]
pub(crate) fn to_lowercase(s: &str) -> (r: String)
    ensures
        r@ == lowercase_of(s@),
{
    s.to_lowercase()
}

} // verus!
