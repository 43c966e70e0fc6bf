//! Filesystem-path operations of the standard library, on paths held as
//! strings. Each result is named by an uninterpreted spec function: it is
//! fixed by `std::path`'s component rules and depends on the arguments
//! alone.

use vstd::prelude::*;

verus! {

/// What `Path::new(p).with_file_name(name)` gives, as a string.
pub uninterp spec fn path_with_file_name(p: Seq<char>, name: Seq<char>) -> Seq<char>;

/// What `Path::new(p).join(name)` gives, as a string.
pub uninterp spec fn path_join(p: Seq<char>, name: Seq<char>) -> Seq<char>;

/// What `Path::new(p).extension()` gives, as a string.
pub uninterp spec fn path_extension(p: Seq<char>) -> Option<Seq<char>>;

/// What `Path::new(p).file_name()` gives, as a string.
pub uninterp spec fn path_file_name(p: Seq<char>) -> Option<Seq<char>>;

/// What `Path::new(p).parent()` gives, as a string.
pub uninterp spec fn path_parent(p: Seq<char>) -> Option<Seq<char>>;

/// What `Path::new(full).strip_prefix(root)` gives, as a string.
pub uninterp spec fn path_strip_prefix(full: Seq<char>, root: Seq<char>) -> Option<Seq<char>>;

/// The components of `Path::new(p).components()`, in order: `Some(name)`
/// for a `Normal` component, `None` for a root, prefix, `.` or `..`.
pub uninterp spec fn path_components(p: Seq<char>) -> Seq<Option<Seq<char>>>;

/// `Path::with_file_name`. Trusted: the result is `path_with_file_name` of
/// the arguments (a path built from two `str`s is valid UTF-8, so the
/// conversion back to a string loses nothing).
#[verifier::external_body]
pub(crate) fn with_file_name(p: &str, name: &str) -> (r: String)
    ensures
        r@ == path_with_file_name(p@, name@),
{
    std::path::Path::new(p).with_file_name(name).to_string_lossy().into_owned()
}

/// `Path::join`. Trusted: the result is `path_join` of the arguments.
#[verifier::external_body]
pub(crate) fn join(p: &str, name: &str) -> (r: String)
    ensures
        r@ == path_join(p@, name@),
{
    std::path::Path::new(p).join(name).to_string_lossy().into_owned()
}

/// `Path::extension`. Trusted: the result is `path_extension` of `p`.
#[verifier::external_body]
pub(crate) fn extension(p: &str) -> (r: Option<String>)
    ensures
        match r {
            Some(e) => path_extension(p@) == Some(e@),
            None => path_extension(p@) is None,
        },
{
    std::path::Path::new(p).extension().map(|e| e.to_string_lossy().into_owned())
}

/// `Path::file_name`. Trusted: the result is `path_file_name` of `p`.
#[verifier::external_body]
pub(crate) fn file_name(p: &str) -> (r: Option<String>)
    ensures
        match r {
            Some(e) => path_file_name(p@) == Some(e@),
            None => path_file_name(p@) is None,
        },
{
    std::path::Path::new(p).file_name().map(|e| e.to_string_lossy().into_owned())
}

/// `Path::parent`. Trusted: the result is `path_parent` of `p`.
#[verifier::external_body]
pub(crate) fn parent(p: &str) -> (r: Option<String>)
    ensures
        match r {
            Some(e) => path_parent(p@) == Some(e@),
            None => path_parent(p@) is None,
        },
{
    std::path::Path::new(p).parent().map(|e| e.to_string_lossy().into_owned())
}

/// `Path::strip_prefix`. Trusted: the result is `path_strip_prefix` of the
/// arguments.
#[verifier::external_body]
pub(crate) fn strip_prefix(full: &str, root: &str) -> (r: Option<String>)
    ensures
        match r {
            Some(e) => path_strip_prefix(full@, root@) == Some(e@),
            None => path_strip_prefix(full@, root@) is None,
        },
{
    std::path::Path::new(full).strip_prefix(root).ok().map(|e| e.to_string_lossy().into_owned())
}

/// One component of a path: a `Normal` name, or anything else.
pub enum PathPart {
    Normal(String),
    Other,
}

/// The name a component holds, if it is a `Normal` one.
pub open spec fn part_view(p: PathPart) -> Option<Seq<char>> {
    match p {
        PathPart::Normal(s) => Some(s@),
        PathPart::Other => None,
    }
}

/// `Path::components`. Trusted: the result, component by component, is
/// `path_components` of `p`.
#[verifier::external_body]
pub(crate) fn components(p: &str) -> (r: Vec<PathPart>)
    ensures
        r@.map_values(|c: PathPart| part_view(c)) == path_components(p@),
{
    std::path::Path::new(p)
        .components()
        .map(|c| match c {
            std::path::Component::Normal(s) => PathPart::Normal(s.to_string_lossy().into_owned()),
            _ => PathPart::Other,
        })
        .collect()
}

} // verus!
