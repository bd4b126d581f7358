//! File paths, taken apart and put together by `std::path`.
//!
//! How a path is written, and so what these functions answer, is settled by the platform that
//! the crate is compiled for.

use std::path::Path;

use vstd::prelude::*;

use crate::text::last_of;

verus! {

/// What `Path::parent` gives for a path.
pub uninterp spec fn path_parent(path: Seq<char>) -> Option<Seq<char>>;

/// What `Path::file_name` gives for a path.
pub uninterp spec fn path_file_name(path: Seq<char>) -> Option<Seq<char>>;

/// What `Path::join` gives for two paths.
pub uninterp spec fn path_join(dir: Seq<char>, rest: Seq<char>) -> Seq<char>;

/// What `Path::with_extension` gives for a path and an extension.
pub uninterp spec fn path_with_extension(path: Seq<char>, ext: Seq<char>) -> Seq<char>;

/// Whether `std::path::is_separator` takes the character for a separator.
pub uninterp spec fn path_separator(c: char) -> bool;

/// A file name without its extension: what stands before the last full stop, unless that stands
/// at the start of the name or the name has none.
pub open spec fn name_stem(name: Seq<char>) -> Seq<char> {
    match last_of(name, '.') {
        Some(i) if i > 0 => name.take(i),
        _ => name,
    }
}

/// The extension of a file name: what stands behind the last full stop, unless that stands at the
/// start of the name or the name has none.
pub open spec fn name_ext(name: Seq<char>) -> Option<Seq<char>> {
    match last_of(name, '.') {
        Some(i) if i > 0 => Some(name.skip(i + 1)),
        _ => None,
    }
}

/// The stem of the file name that a path ends in.
pub open spec fn path_file_stem(path: Seq<char>) -> Option<Seq<char>> {
    match path_file_name(path) {
        Some(name) => Some(name_stem(name)),
        None => None,
    }
}

/// The extension of the file name that a path ends in.
pub open spec fn path_extension(path: Seq<char>) -> Option<Seq<char>> {
    match path_file_name(path) {
        Some(name) => name_ext(name),
        None => None,
    }
}

/// The text of a part of a path.
pub open spec fn part(r: Option<String>) -> Option<Seq<char>> {
    match r {
        Some(s) => Some(s@),
        None => None,
    }
}

/// The text of a part of a path, empty where the path has no such part.
pub open spec fn part_or_empty(r: Option<Seq<char>>) -> Seq<char> {
    match r {
        Some(s) => s,
        None => Seq::empty(),
    }
}

/// `std::path::Path::parent`, named `path_parent`.
#[verifier::external_body]
pub(crate) fn parent(path: &str) -> (r: Option<String>)
    ensures
        part(r) == path_parent(path@),
{
    Path::new(path).parent().and_then(|p| p.to_str()).map(str::to_string)
}

/// `std::path::Path::file_name`, named `path_file_name`.
#[verifier::external_body]
pub(crate) fn file_name(path: &str) -> (r: Option<String>)
    ensures
        part(r) == path_file_name(path@),
{
    Path::new(path).file_name().and_then(|s| s.to_str()).map(str::to_string)
}

/// `std::path::Path::file_stem`: the stem of the file name, where there is one.
#[verifier::external_body]
pub(crate) fn file_stem(path: &str) -> (r: Option<String>)
    ensures
        part(r) == path_file_stem(path@),
{
    Path::new(path).file_stem().and_then(|s| s.to_str()).map(str::to_string)
}

/// `std::path::Path::extension`: the extension of the file name, where there is one.
#[verifier::external_body]
pub(crate) fn extension(path: &str) -> (r: Option<String>)
    ensures
        part(r) == path_extension(path@),
{
    Path::new(path).extension().and_then(|s| s.to_str()).map(str::to_string)
}

/// `std::path::Path::join`, named `path_join`.
#[verifier::external_body]
pub(crate) fn join(dir: &str, rest: &str) -> (r: String)
    ensures
        r@ == path_join(dir@, rest@),
{
    Path::new(dir).join(rest).to_str().unwrap().to_string()
}

/// `std::path::Path::with_extension`, named `path_with_extension`: the extension of the file name
/// is replaced, or added where there is none. It panics on an extension that holds a separator.
#[verifier::external_body]
pub(crate) fn with_extension(path: &str, ext: &str) -> (r: String)
    requires
        forall|i: int| 0 <= i < ext@.len() ==> !path_separator(#[trigger] ext@[i]),
    ensures
        r@ == path_with_extension(path@, ext@),
        path_file_name(path@) is Some && ext@.len() > 0 ==> path_file_name(r@) == Some(
            name_stem(path_file_name(path@)->0) + "."@ + ext@,
        ),
{
    Path::new(path).with_extension(ext).to_str().unwrap().to_string()
}

/// `std::path::is_separator`, named `path_separator`.
#[verifier::external_body]
pub(crate) fn is_separator(c: char) -> (r: bool)
    ensures
        r == path_separator(c),
{
    std::path::is_separator(c)
}

/// The part, or an empty text.
pub(crate) fn or_empty(r: Option<String>) -> (s: String)
    ensures
        s@ == part_or_empty(part(r)),
{
    match r {
        Some(s) => s,
        None => String::new(),
    }
}

} // verus!
