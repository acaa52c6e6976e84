//! Paths as strings: what std's `Path` tells of them, and the normalization
//! of separators.

use std::path::Path;

use vstd::prelude::*;

use crate::record::builder::text_of;
use crate::text::push_char;

verus! {

// Paths are taken apart by std's `Path`, by the path syntax of the platform
// built for. What is claimed of its answers is said by the five names below:
// each is what one method of `Path` gives for the paths as strings.

/// What `Path::strip_prefix` of std leaves of `path` once `base` is taken off
/// its front, by the path syntax of the platform built for; `None` where
/// `base` is no prefix of `path`.
pub uninterp spec fn path_remainder(path: Seq<char>, base: Seq<char>) -> Option<Seq<char>>;

/// What `Path::extension` of std finds in `path`: the part of the file name
/// behind its last dot, without the dot; `None` where there is none.
pub uninterp spec fn path_extension(path: Seq<char>) -> Option<Seq<char>>;

/// Whether std's `Path` equality holds the two paths to be the same.
pub uninterp spec fn path_same(left: Seq<char>, right: Seq<char>) -> bool;

/// Whether `Path::is_absolute` of std holds of `path`.
pub uninterp spec fn path_is_absolute(path: Seq<char>) -> bool;

/// What `Path::join` of std makes of `base` and `path`.
pub uninterp spec fn path_joined(base: Seq<char>, path: Seq<char>) -> Seq<char>;

/// Calls `Path::strip_prefix` of std. Nothing is claimed of the result but
/// that it is `path_remainder` of the two paths.
#[verifier::external_body]
pub(crate) fn strip_prefix(path: &str, base: &str) -> (out: Option<String>)
    ensures
        text_of(out) == path_remainder(path@, base@),
{
    match Path::new(path).strip_prefix(base) {
        Ok(rest) => Some(rest.to_string_lossy().into_owned()),
        Err(_) => None,
    }
}

/// Calls `Path::extension` of std. Nothing is claimed of the result but that
/// it is `path_extension` of the path.
#[verifier::external_body]
pub(crate) fn extension(path: &str) -> (out: Option<String>)
    ensures
        text_of(out) == path_extension(path@),
{
    match Path::new(path).extension() {
        Some(found) => Some(found.to_string_lossy().into_owned()),
        None => None,
    }
}

/// Compares two paths as std's `Path` does, component by component.
#[verifier::external_body]
pub(crate) fn same_path(left: &str, right: &str) -> (same: bool)
    ensures
        same == path_same(left@, right@),
{
    Path::new(left) == Path::new(right)
}

/// Calls `Path::is_absolute` of std.
#[verifier::external_body]
pub(crate) fn is_absolute(path: &str) -> (absolute: bool)
    ensures
        absolute == path_is_absolute(path@),
{
    Path::new(path).is_absolute()
}

/// Calls `Path::join` of std.
#[verifier::external_body]
pub(crate) fn join(base: &str, path: &str) -> (out: String)
    ensures
        out@ == path_joined(base@, path@),
{
    Path::new(base).join(path).to_string_lossy().into_owned()
}

/// A backslash as a forward slash; any other character as itself.
pub open spec fn forward_slash(c: char) -> char {
    if c == '\\' {
        '/'
    } else {
        c
    }
}

/// A path with every backslash turned into a forward slash.
pub open spec fn normalized(path: Seq<char>) -> Seq<char> {
    path.map_values(|c: char| forward_slash(c))
}

/// A normalized path holds no backslash, and normalizing it again changes
/// nothing.
pub proof fn lemma_normalized_has_no_backslash(path: Seq<char>)
    ensures
        !normalized(path).contains('\\'),
        normalized(normalized(path)) == normalized(path),
{
    assert(normalized(normalized(path)) =~= normalized(path));
}

/// The path with its separators normalized to forward slashes.
pub fn normalize_relative(path: &str) -> (out: String)
    ensures
        out@ == normalized(path@),
        !out@.contains('\\'),
{
    let mut out = String::new();
    for c in it: path.chars()
        invariant
            it.seq() == path@,
            out@ == normalized(path@.take(it.index() as int)),
    {
        if c == '\\' {
            push_char(&mut out, '/');
        } else {
            push_char(&mut out, c);
        }
        proof {
            let k = it.index() as int;
            assert(path@.take(k + 1) == path@.take(k).push(path@[k]));
            assert(out@ == normalized(path@.take(k + 1)));
        }
    }
    proof {
        assert(path@.take(path@.len() as int) == path@);
        lemma_normalized_has_no_backslash(path@);
    }
    out
}

/// The path as the string under which records carry it.
pub fn native_string(path: &str) -> (out: String)
    ensures
        out@ == path@,
{
    path.to_string()
}

} // verus!
