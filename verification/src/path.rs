//! Which directory a typed path asks to scan, and which names in it count.
//!
//! A typed path is either a directory, whose every entry is a candidate, or a
//! directory followed by the beginning of a name. Whether the path is a
//! directory is for the caller to find out; taking the path apart is done here,
//! by the standard library's path type.

use vstd::prelude::*;

verus! {

/// The result of `std::path::Path::parent` on the path written as `path`:
/// the path without its final component. `None` where the path ends in a root
/// or is empty. The path syntax is that of the platform the crate is built
/// for.
pub uninterp spec fn path_parent(path: Seq<char>) -> Option<Seq<char>>;

/// The result of `std::path::Path::file_name` on the path written as `path`:
/// its final component. `None` where the path ends in `..` or has no
/// component. The path syntax is that of the platform the crate is built for.
pub uninterp spec fn path_file_name(path: Seq<char>) -> Option<Seq<char>>;

/// Calls `std::path::Path::parent`. Trusted: the result is `path_parent` of
/// the argument, that is, it depends on the text of `path` alone.
#[verifier::external_body]
fn parent_of(path: &str) -> (r: Option<String>)
    ensures
        r.deep_view() == path_parent(path@),
{
    match std::path::Path::new(path).parent() {
        Some(p) => Some(p.to_string_lossy().into_owned()),
        None => None,
    }
}

/// Calls `std::path::Path::file_name`. Trusted: the result is
/// `path_file_name` of the argument, that is, it depends on the text of
/// `path` alone.
#[verifier::external_body]
fn file_name_of(path: &str) -> (r: Option<String>)
    ensures
        r.deep_view() == path_file_name(path@),
{
    match std::path::Path::new(path).file_name() {
        Some(n) => Some(n.to_string_lossy().into_owned()),
        None => None,
    }
}

/// A directory to list and the prefix that the names of its entries must
/// have to become candidates.
pub struct ScanTarget {
    pub dir: String,
    pub prefix: String,
}

/// A `ScanTarget` in contracts.
pub struct ScanTargetView {
    pub dir: Seq<char>,
    pub prefix: Seq<char>,
}

impl View for ScanTarget {
    type V = ScanTargetView;

    open spec fn view(&self) -> ScanTargetView {
        ScanTargetView { dir: self.dir@, prefix: self.prefix@ }
    }
}

/// The text in `t`, or the empty text.
pub open spec fn text_or_empty(t: Option<Seq<char>>) -> Seq<char> {
    match t {
        Some(s) => s,
        None => Seq::empty(),
    }
}

/// The scan target of `input`, given its parent and its final component.
///
/// A directory is scanned itself, with every name admitted. Any other path
/// has its parent scanned for names that begin with its final component;
/// where either is missing, the empty text stands for it.
pub open spec fn resolve_target(
    input: Seq<char>,
    input_is_dir: bool,
    parent: Option<Seq<char>>,
    file_name: Option<Seq<char>>,
) -> ScanTargetView {
    if input_is_dir {
        ScanTargetView { dir: input, prefix: Seq::empty() }
    } else {
        ScanTargetView { dir: text_or_empty(parent), prefix: text_or_empty(file_name) }
    }
}

/// The scan target of `input`, with parent and final component as the
/// standard library finds them.
pub open spec fn scan_target_of(input: Seq<char>, input_is_dir: bool) -> ScanTargetView {
    resolve_target(input, input_is_dir, path_parent(input), path_file_name(input))
}

/// The text in `t`, or an empty string.
fn string_or_empty(t: Option<String>) -> (s: String)
    ensures
        s@ == text_or_empty(t.deep_view()),
{
    match t {
        Some(s) => s,
        None => String::new(),
    }
}

/// Builds the scan target of `input_path` from its parent and final
/// component.
pub fn resolve_scan_target(
    input_path: &str,
    input_is_dir: bool,
    parent: Option<String>,
    file_name: Option<String>,
) -> (target: ScanTarget)
    ensures
        target@ == resolve_target(
            input_path@,
            input_is_dir,
            parent.deep_view(),
            file_name.deep_view(),
        ),
{
    if input_is_dir {
        ScanTarget { dir: input_path.to_owned(), prefix: String::new() }
    } else {
        ScanTarget { dir: string_or_empty(parent), prefix: string_or_empty(file_name) }
    }
}

/// The directory to list for `input_path` and the prefix to filter its
/// entries by. `input_is_dir` says whether `input_path` names an existing
/// directory.
pub fn scan_target(input_path: &str, input_is_dir: bool) -> (target: ScanTarget)
    ensures
        target@ == scan_target_of(input_path@, input_is_dir),
{
    if input_is_dir {
        resolve_scan_target(input_path, true, None, None)
    } else {
        resolve_scan_target(input_path, false, parent_of(input_path), file_name_of(input_path))
    }
}

} // verus!
