//! File paths as the panel shows them: the final component, the containing
//! folder, and the path relative to the workspace root.
//!
//! Paths are held as text. Splitting a path into components is left to
//! `std::path`; what it answers is named here, and the functions of this
//! module state their results over those names.

use vstd::prelude::*;

verus! {

/// What `std::path::Path::file_name` answers for `path`: its final component,
/// or `None` where the path names none (it is empty, the root, or ends in
/// `..`). The answer is the one of the platform the crate is built for.
pub uninterp spec fn path_file_name(path: Seq<char>) -> Option<Seq<char>>;

/// What `std::path::Path::parent` answers for `path`: the path without its
/// final component, or `None` where the path is empty or a root.
pub uninterp spec fn path_parent(path: Seq<char>) -> Option<Seq<char>>;

/// What `std::path::Path::strip_prefix` answers for `path` and `base`: the
/// rest of `path` behind `base`, or `None` where `base` is not a prefix of
/// `path` component by component.
pub uninterp spec fn path_strip_prefix(path: Seq<char>, base: Seq<char>) -> Option<Seq<char>>;

/// The text of an optional string.
pub open spec fn text_of(part: Option<String>) -> Option<Seq<char>> {
    match part {
        Some(s) => Some(s@),
        None => None,
    }
}

/// The text of an optional string slice.
pub open spec fn slice_text_of(part: Option<&str>) -> Option<Seq<char>> {
    match part {
        Some(s) => Some(s@),
        None => None,
    }
}

/// The text of `part`, or the empty text where there is none.
pub open spec fn text_or_empty(part: Option<Seq<char>>) -> Seq<char> {
    match part {
        Some(s) => s,
        None => Seq::empty(),
    }
}

/// The path that is shown for `path`: relative to `root` where a root is
/// configured and `path` lies under it, else `path` itself.
pub open spec fn shown_path(path: Seq<char>, root: Option<Seq<char>>) -> Seq<char> {
    match root {
        Some(base) => relative_or_full(path, path_strip_prefix(path, base)),
        None => path,
    }
}

/// `rest` where stripping succeeded, else the full path.
pub open spec fn relative_or_full(path: Seq<char>, rest: Option<Seq<char>>) -> Seq<char> {
    match rest {
        Some(r) => r,
        None => path,
    }
}

/// Calls `std::path::Path::file_name` on `path`. Trusted: the result is the
/// answer named `path_file_name`, as text.
#[verifier::external_body]
fn file_name(path: &str) -> (r: Option<String>)
    ensures
        text_of(r) == path_file_name(path@),
{
    std::path::Path::new(path).file_name().map(|name| name.to_string_lossy().into_owned())
}

/// Calls `std::path::Path::parent` on `path`. Trusted: the result is the
/// answer named `path_parent`, as text.
#[verifier::external_body]
fn parent(path: &str) -> (r: Option<String>)
    ensures
        text_of(r) == path_parent(path@),
{
    std::path::Path::new(path).parent().map(|dir| dir.to_string_lossy().into_owned())
}

/// Calls `std::path::Path::strip_prefix` on `path` with `base`. Trusted: the
/// result is the answer named `path_strip_prefix`, as text, with the error
/// turned into `None`.
#[verifier::external_body]
fn strip_prefix(path: &str, base: &str) -> (r: Option<String>)
    ensures
        text_of(r) == path_strip_prefix(path@, base@),
{
    std::path::Path::new(path).strip_prefix(base).ok().map(|rest| rest.to_string_lossy().into_owned())
}

/// The text of a path component, empty where the component is missing.
pub fn component_or_empty(part: Option<String>) -> (r: String)
    ensures
        r@ == text_or_empty(text_of(part)),
{
    match part {
        Some(s) => s,
        None => String::new(),
    }
}

/// Picks the path to show once stripping the workspace root was tried:
/// the stripped rest where there is one, else the full path.
pub fn choose_shown_path(path: &str, rest: Option<String>) -> (r: String)
    ensures
        r@ == relative_or_full(path@, text_of(rest)),
{
    match rest {
        Some(s) => s,
        None => path.to_owned(),
    }
}

/// The final component of `path`, empty where it has none.
pub fn file_name_or_empty(path: &str) -> (r: String)
    ensures
        r@ == text_or_empty(path_file_name(path@)),
{
    component_or_empty(file_name(path))
}

/// The folder that holds `path`, empty where it has none.
pub fn folder_or_empty(path: &str) -> (r: String)
    ensures
        r@ == text_or_empty(path_parent(path@)),
{
    component_or_empty(parent(path))
}

/// The path to show for `path`. With a workspace root the path is shown
/// relative to it when it lies under the root; without one, or for a path
/// outside the root, the full path is shown.
pub fn display_path(path: &str, root: Option<&str>) -> (r: String)
    ensures
        r@ == shown_path(path@, slice_text_of(root)),
{
    match root {
        Some(base) => choose_shown_path(path, strip_prefix(path, base)),
        None => path.to_owned(),
    }
}

} // verus!
