//! The parts of `std::path::Path` that decide where a file is moved and what
//! it is called in logs. A file name and a file stem are stated as the
//! documentation of `Path::components`, `Path::file_name` and
//! `Path::file_stem` gives them (on Unix, where `/` is the separator);
//! `with_file_name` and `join` are named and tied to their arguments, with
//! the documented facts of `join` stated beside the name.
use vstd::prelude::*;
use crate::text::split_char;

verus! {

/// The last component of a path split at `/`: empty pieces (repeated and
/// trailing separators) and `.` pieces are skipped.
pub open spec fn last_component(ps: Seq<Seq<char>>) -> Option<Seq<char>>
    decreases ps.len(),
{
    if ps.len() == 0 {
        None
    } else if ps.last().len() == 0 || ps.last() == seq!['.'] {
        last_component(ps.drop_last())
    } else {
        Some(ps.last())
    }
}

/// What `Path::file_name` gives for `path`: its last component, or `None`
/// where it has none (only separators and `.`) or where that is `..`.
pub open spec fn path_file_name(path: Seq<char>) -> Option<Seq<char>> {
    match last_component(split_char(path, '/')) {
        Some(c) => if c == seq!['.', '.'] {
            None
        } else {
            Some(c)
        },
        None => None,
    }
}

/// The index of the last `.` of `n`.
pub open spec fn last_dot(n: Seq<char>) -> Option<int>
    decreases n.len(),
{
    if n.len() == 0 {
        None
    } else if n.last() == '.' {
        Some(n.len() - 1)
    } else {
        last_dot(n.drop_last())
    }
}

/// The stem of a file name: the part before its last `.`, or the whole
/// name where it has no `.` or its only `.` is its first char.
pub open spec fn name_stem(n: Seq<char>) -> Seq<char> {
    match last_dot(n) {
        Some(i) => if i > 0 {
            n.subrange(0, i)
        } else {
            n
        },
        None => n,
    }
}

/// What `Path::file_stem` gives for `path`.
pub open spec fn path_file_stem(path: Seq<char>) -> Option<Seq<char>> {
    match path_file_name(path) {
        Some(n) => Some(name_stem(n)),
        None => None,
    }
}

/// Names the text of `Path::with_file_name(path, name)`.
pub uninterp spec fn path_with_file_name(path: Seq<char>, name: Seq<char>) -> Seq<char>;

/// Names the text of `Path::join(base, part)`.
pub uninterp spec fn path_join(base: Seq<char>, part: Seq<char>) -> Seq<char>;

/// Calls `Path::file_name`. Claimed: the result is `path_file_name`, as
/// the documentation describes components (repeated separators and `.`
/// after the start ignored, a trailing separator ignored) and file names
/// (`None` for a path that ends in `..`). The text of a `str` path stays
/// valid UTF-8, so the lossy conversion changes nothing.
#[verifier::external_body]
pub(crate) fn file_name(path: &str) -> (r: Option<String>)
    ensures
        match r {
            Some(n) => path_file_name(path@) == Some(n@),
            None => path_file_name(path@) is None,
        },
{
    match std::path::Path::new(path).file_name() {
        Some(n) => Some(n.to_string_lossy().into_owned()),
        None => None,
    }
}

/// Calls `Path::file_stem`. Claimed: the result is `path_file_stem`, as its
/// documentation gives it: `None` without a file name, the whole name
/// without an embedded `.` or where the only `.` begins it, else the part
/// before the last `.`.
#[verifier::external_body]
pub(crate) fn file_stem(path: &str) -> (r: Option<String>)
    ensures
        match r {
            Some(n) => path_file_stem(path@) == Some(n@),
            None => path_file_stem(path@) is None,
        },
{
    match std::path::Path::new(path).file_stem() {
        Some(n) => Some(n.to_string_lossy().into_owned()),
        None => None,
    }
}

/// Calls `Path::with_file_name`: `path` with its file name replaced by
/// `name`. Claimed: the result is the named one.
#[verifier::external_body]
pub(crate) fn with_file_name(path: &str, name: &str) -> (r: String)
    ensures
        r@ == path_with_file_name(path@, name@),
{
    std::path::Path::new(path).with_file_name(name).to_string_lossy().into_owned()
}

/// Calls `Path::join`. Claimed: the result is the named one; as its
/// documentation shows (on Unix), an absolute `part` replaces `base`, and a
/// relative `part` extends a `base` that does not end in `/` after a `/`.
/// What it gives for an empty `base` or one that ends in `/` is left
/// unsaid.
#[verifier::external_body]
pub(crate) fn join(base: &str, part: &str) -> (r: String)
    ensures
        r@ == path_join(base@, part@),
        part@.len() > 0 && part@[0] == '/' ==> r@ == part@,
        base@.len() > 0 && base@.last() != '/' && part@.len() > 0 && part@[0] != '/' ==> r@
            == base@ + seq!['/'] + part@,
{
    std::path::Path::new(base).join(part).to_string_lossy().into_owned()
}

/// Where a file is moved to when it goes into the sibling folder `dir`:
/// `dir` put in place of the file's name, then the file's name joined to
/// it. `None` where the path has no file name.
pub open spec fn relocation(path: Seq<char>, dir: Seq<char>) -> Option<Seq<char>> {
    match path_file_name(path) {
        Some(n) => Some(path_join(path_with_file_name(path, dir), n)),
        None => None,
    }
}

/// The path that a file goes to when it is moved into the folder `dir`
/// next to it (as `Path::new(p).with_file_name(dir).join(file_name)`).
pub fn relocation_target(path: &str, dir: &str) -> (r: Option<String>)
    ensures
        match r {
            Some(t) => relocation(path@, dir@) == Some(t@),
            None => relocation(path@, dir@) is None,
        },
{
    match file_name(path) {
        Some(n) => {
            let folder = with_file_name(path, dir);
            Some(join(folder.as_str(), n.as_str()))
        },
        None => None,
    }
}

} // verus!
