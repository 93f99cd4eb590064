//! The path operations of `std::path` that the directory layout is built from.
//!
//! Paths are carried as text. Each operation turns its text into a
//! `std::path::PathBuf`, applies one method of it, and turns the result back
//! into text. The rules by which `std::path` splits a path into components are
//! those of the target the crate is built for (on Unix, `/` separates; on
//! Windows, prefixes and both slashes count); they are fixed for a build, so
//! each result is named as a function of the text that goes in. Nothing about
//! these names is stated beyond that: no property of path splitting is
//! assumed anywhere in the library.

use std::path::Path;
use std::path::PathBuf;
use vstd::prelude::*;

verus! {

/// What `Path::file_name` gives for the path `path`: its final component,
/// or `None` where the path ends in `..` or has no component.
pub uninterp spec fn path_file_name(path: Seq<char>) -> Option<Seq<char>>;

/// What `PathBuf::pop` leaves of the path `path`: its parent, or `path`
/// itself where it has none.
pub uninterp spec fn path_popped(path: Seq<char>) -> Seq<char>;

/// What `PathBuf::push` makes of `path` and `component`.
pub uninterp spec fn path_pushed(path: Seq<char>, component: Seq<char>) -> Seq<char>;

/// What `PathBuf::set_extension` makes of `path` and `extension`.
pub uninterp spec fn path_with_extension(path: Seq<char>, extension: Seq<char>) -> Seq<char>;

/// Calls `std::path::Path::file_name` on `path`. Claims that the result is
/// `path_file_name(path)`. The component is turned into text lossily, which
/// changes nothing here: a component of valid UTF-8 text is valid UTF-8.
#[verifier::external_body]
pub(crate) fn file_name(path: &str) -> (r: Option<String>)
    ensures
        match r {
            Some(name) => path_file_name(path@) == Some(name@),
            None => path_file_name(path@) is None,
        },
{
    match Path::new(path).file_name() {
        Some(name) => Some(name.to_string_lossy().into_owned()),
        None => None,
    }
}

/// Calls `std::path::PathBuf::pop` on `path` and returns what is left.
/// Claims that the result is `path_popped(path)`.
#[verifier::external_body]
pub(crate) fn pop(path: &str) -> (r: String)
    ensures
        r@ == path_popped(path@),
{
    let mut buf = PathBuf::from(path);
    buf.pop();
    buf.to_string_lossy().into_owned()
}

/// Whether `c` is a single plain path component on any target: nonempty,
/// neither `.` nor `..`, and free of separators and of the drive mark `:`.
pub open spec fn is_plain_component(c: Seq<char>) -> bool {
    &&& c.len() > 0
    &&& c != seq!['.']
    &&& c != seq!['.', '.']
    &&& has_no_separator(c)
    &&& forall|i: int| 0 <= i < c.len() ==> c[i] != ':'
}

/// Calls `std::path::PathBuf::push` on `path` with `component`. Claims that
/// the result is `path_pushed(path, component)`, and, as the documentation of
/// `push` (which appends a relative path after a separator) and of
/// `file_name` (the final component) give it, that a plain component pushed
/// is the file name of the result.
#[verifier::external_body]
pub(crate) fn push(path: &str, component: &str) -> (r: String)
    ensures
        r@ == path_pushed(path@, component@),
        is_plain_component(component@) ==> path_file_name(r@) == Some(component@),
{
    let mut buf = PathBuf::from(path);
    buf.push(component);
    buf.to_string_lossy().into_owned()
}

/// Whether `s` holds no character that `std::path::is_separator` counts as a
/// path separator on any target (`/`, and on Windows also `\`).
pub open spec fn has_no_separator(s: Seq<char>) -> bool {
    forall|i: int| 0 <= i < s.len() ==> s[i] != '/' && s[i] != '\\'
}

/// Calls `std::path::PathBuf::set_extension` on `path` with `extension`.
/// Claims that the result is `path_with_extension(path, extension)`. The
/// method panics on an extension that holds a path separator; such extensions
/// are left out.
#[verifier::external_body]
pub(crate) fn set_extension(path: &str, extension: &str) -> (r: String)
    requires
        has_no_separator(extension@),
    ensures
        r@ == path_with_extension(path@, extension@),
{
    let mut buf = PathBuf::from(path);
    buf.set_extension(extension);
    buf.to_string_lossy().into_owned()
}

} // verus!
