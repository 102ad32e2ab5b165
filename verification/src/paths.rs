use vstd::prelude::*;

use crate::text::opt_seq;

verus! {

/// What std's `Path::parent` gives for a path, as text.
pub uninterp spec fn std_path_parent(path: Seq<char>) -> Option<Seq<char>>;

/// What std's `Path::file_name` gives for a path, as text.
pub uninterp spec fn std_path_file_name(path: Seq<char>) -> Option<Seq<char>>;

/// What std's `Path::join` gives for a base path and a relative part, as text.
pub uninterp spec fn std_path_join(base: Seq<char>, part: Seq<char>) -> Seq<char>;

/// Whether std's `Path` order puts the first path before the second.
pub uninterp spec fn std_path_lt(a: Seq<char>, b: Seq<char>) -> bool;

/// Whether std's `Path` equality holds between two paths (component-wise).
pub uninterp spec fn std_path_eq(a: Seq<char>, b: Seq<char>) -> bool;

/// The parent of a path.
///
/// Trusted: calls std's `Path::parent`. The contract says the result is that
/// function's result, as text, and, as std documents, that the empty path
/// has no parent. The text is lossless here: a part of a `str` is valid UTF-8.
#[verifier::external_body]
pub(crate) fn path_parent(path: &str) -> (parent: Option<String>)
    ensures
        opt_seq(parent) == std_path_parent(path@),
        path@.len() == 0 ==> parent is None,
{
    match std::path::Path::new(path).parent() {
        Some(p) => Some(p.to_string_lossy().into_owned()),
        None => None,
    }
}

/// The last component of a path.
///
/// Trusted: calls std's `Path::file_name`; the contract says the result is
/// that function's result, as text.
#[verifier::external_body]
pub(crate) fn path_file_name(path: &str) -> (name: Option<String>)
    ensures
        opt_seq(name) == std_path_file_name(path@),
{
    match std::path::Path::new(path).file_name() {
        Some(n) => Some(n.to_string_lossy().into_owned()),
        None => None,
    }
}

/// A path extended by a relative part.
///
/// Trusted: calls std's `Path::join`; the contract says the result is that
/// function's result, as text.
#[verifier::external_body]
pub(crate) fn path_join(base: &str, part: &str) -> (joined: String)
    ensures
        joined@ == std_path_join(base@, part@),
{
    std::path::Path::new(base).join(part).to_string_lossy().into_owned()
}

/// Whether the first path comes before the second in std's `Path` order.
///
/// Trusted: calls std's `<` on `Path` (component-wise comparison). The
/// contract names the result and states what std's `Ord` contract promises
/// of it, in terms of `std_path_eq` (std's `==` on `Path`, with which `Ord`
/// agrees): when `a` comes before `b`, the two are not equal, `b` does not
/// come before `a`, and `a` comes before every path that `b` comes before
/// or equals (transitivity); when `a` does not come before `b`, then `b`
/// comes before `a` or equals it (totality).
#[verifier::external_body]
pub(crate) fn path_precedes(a: &str, b: &str) -> (before: bool)
    ensures
        before == std_path_lt(a@, b@),
        before ==> !std_path_lt(b@, a@) && !std_path_eq(a@, b@),
        !before ==> std_path_lt(b@, a@) || std_path_eq(b@, a@),
        before ==> forall|c: Seq<char>|
            (std_path_lt(b@, c) || std_path_eq(b@, c)) ==> #[trigger] std_path_lt(a@, c),
{
    std::path::Path::new(a) < std::path::Path::new(b)
}

/// The directory of a manifest: its parent, or `.` when it has none.
pub open spec fn parent_or_current(path: Seq<char>) -> Seq<char> {
    match std_path_parent(path) {
        Some(p) => p,
        None => "."@,
    }
}

/// The directory that holds a file: `path.parent().unwrap_or(".")`.
pub fn directory_of(path: &str) -> (dir: String)
    ensures
        dir@ == parent_or_current(path@),
{
    match path_parent(path) {
        Some(p) => p,
        None => ".".to_owned(),
    }
}

/// The name a crate goes by before its manifest is read: the last component
/// of its directory, or `unknown`.
pub open spec fn directory_name(dir: Seq<char>) -> Seq<char> {
    match std_path_file_name(dir) {
        Some(n) => n,
        None => "unknown"@,
    }
}

/// `dir.file_name().unwrap_or("unknown")`.
pub fn name_of_directory(dir: &str) -> (name: String)
    ensures
        name@ == directory_name(dir@),
{
    match path_file_name(dir) {
        Some(n) => n,
        None => "unknown".to_owned(),
    }
}

/// The label shown while a manifest is checked: the name of the directory
/// that holds it, or nothing.
pub open spec fn progress_label(path: Seq<char>) -> Seq<char> {
    match std_path_parent(path) {
        Some(p) => match std_path_file_name(p) {
            Some(n) => n,
            None => Seq::empty(),
        },
        None => Seq::empty(),
    }
}

/// `path.parent().and_then(|p| p.file_name())`, or the empty string.
pub fn label_of_manifest(path: &str) -> (label: String)
    ensures
        label@ == progress_label(path@),
{
    match path_parent(path) {
        Some(p) => match path_file_name(p.as_str()) {
            Some(n) => n,
            None => String::new(),
        },
        None => String::new(),
    }
}

} // verus!
