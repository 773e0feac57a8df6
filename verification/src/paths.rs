//! File names are kept as text.  Their final component, the part of a path
//! below a root, and the order of paths are computed by `std::path::Path`; a file name's stem and
//! extension follow from it as `Path` documents them.
use vstd::prelude::*;

use crate::text::{chars_of, string_of};

verus! {

/// What `Path::file_name` gives for a path, as text.
pub uninterp spec fn path_file_name(path: Seq<char>) -> Option<Seq<char>>;

/// `Path::file_name` followed by `OsStr::to_str`: the final component of the
/// path, if there is one and it is valid Unicode.  The contract names the
/// result and claims that it depends on the path text alone.
#[verifier::external_body]
pub(crate) fn file_name_of(path: &str) -> (r: Option<String>)
    ensures
        r.deep_view() == path_file_name(path@),
{
    match std::path::Path::new(path).file_name() {
        Some(part) => match part.to_str() {
            Some(text) => Some(text.to_string()),
            None => None,
        },
        None => None,
    }
}

/// The index of the last `.` in `s`.
pub open spec fn last_dot(s: Seq<char>) -> Option<int>
    decreases s.len(),
{
    if s.len() == 0 {
        None
    } else if s.last() == '.' {
        Some(s.len() - 1)
    } else {
        last_dot(s.drop_last())
    }
}

/// The stem of a file name as `Path::file_stem` documents it: the name
/// before its last `.`; the whole name when it has no `.` but at its start
/// (and `..` itself).
pub open spec fn name_stem(name: Seq<char>) -> Seq<char> {
    if name == ".."@ {
        name
    } else {
        match last_dot(name) {
            Some(i) => if i > 0 {
                name.take(i)
            } else {
                name
            },
            None => name,
        }
    }
}

/// The extension of a file name as `Path::extension` documents it: the
/// text after its last `.`; none when it has no `.` but at its start.
pub open spec fn name_extension(name: Seq<char>) -> Option<Seq<char>> {
    if name == ".."@ {
        None
    } else {
        match last_dot(name) {
            Some(i) => if i > 0 {
                Some(name.skip(i + 1))
            } else {
                None
            },
            None => None,
        }
    }
}

/// What `Path::file_stem` gives for a path, as text.
pub open spec fn path_file_stem(path: Seq<char>) -> Option<Seq<char>> {
    match path_file_name(path) {
        Some(name) => Some(name_stem(name)),
        None => None,
    }
}

/// What `Path::extension` gives for a path, as text.
pub open spec fn path_extension(path: Seq<char>) -> Option<Seq<char>> {
    match path_file_name(path) {
        Some(name) => name_extension(name),
        None => None,
    }
}

fn last_dot_in(v: &Vec<char>) -> (r: Option<usize>)
    ensures
        r matches Some(i) ==> last_dot(v@) == Some(i as int) && i < v.len(),
        r is None ==> last_dot(v@) is None,
{
    let mut i: usize = v.len();
    assert(v@.take(i as int) =~= v@);
    while i > 0
        invariant
            0 <= i <= v.len(),
            last_dot(v@.take(i as int)) == last_dot(v@),
        decreases i,
    {
        assert(v@.take(i as int).last() == v@[i - 1]);
        assert(v@.take(i as int).drop_last() =~= v@.take(i - 1));
        if v[i - 1] == '.' {
            return Some(i - 1);
        }
        i -= 1;
    }
    None
}

fn is_dot_dot(v: &Vec<char>) -> (r: bool)
    ensures
        r == (v@ == ".."@),
{
    proof {
        reveal_strlit("..");
    }
    let r = v.len() == 2 && v[0] == '.' && v[1] == '.';
    if r {
        assert(v@ =~= ".."@);
    }
    r
}

/// The stem of the final component of a path (see `name_stem`).
pub(crate) fn file_stem_of(path: &str) -> (r: Option<String>)
    ensures
        r.deep_view() == path_file_stem(path@),
{
    match file_name_of(path) {
        None => None,
        Some(name) => {
            let v = chars_of(name.as_str());
            if is_dot_dot(&v) {
                return Some(name);
            }
            match last_dot_in(&v) {
                Some(i) => if i > 0 {
                    let stem = string_of(&v, 0, i);
                    assert(v@.subrange(0, i as int) =~= v@.take(i as int));
                    Some(stem)
                } else {
                    Some(name)
                },
                None => Some(name),
            }
        },
    }
}

/// The extension of the final component of a path (see `name_extension`).
pub(crate) fn extension_of(path: &str) -> (r: Option<String>)
    ensures
        r.deep_view() == path_extension(path@),
{
    match file_name_of(path) {
        None => None,
        Some(name) => {
            let v = chars_of(name.as_str());
            if is_dot_dot(&v) {
                return None;
            }
            match last_dot_in(&v) {
                Some(i) => if i > 0 {
                    proof {
                        assert(last_dot(v@) == Some(i as int));
                    }
                    let ext = string_of(&v, i + 1, v.len());
                    assert(v@.subrange(i + 1, v.len() as int) =~= v@.skip(i + 1));
                    Some(ext)
                } else {
                    None
                },
                None => None,
            }
        },
    }
}

/// What `Path::strip_prefix` leaves of `path` after `root`, as text; the
/// whole path when it does not start with `root`.
pub uninterp spec fn path_relative(path: Seq<char>, root: Seq<char>) -> Seq<char>;

/// `Path::strip_prefix`, falling back to the whole path when `root` is not a
/// prefix of it, then the path as text.  The contract names the result and
/// claims that it depends on the two texts alone.
#[verifier::external_body]
pub(crate) fn relative_path_of(path: &str, root: &str) -> (r: String)
    ensures
        r@ == path_relative(path@, root@),
{
    let full = std::path::Path::new(path);
    full.strip_prefix(root).unwrap_or(full).to_string_lossy().into_owned()
}

/// Whether `Path::new(a) < Path::new(b)`: the order of paths, compared
/// component by component.
pub uninterp spec fn path_lt(a: Seq<char>, b: Seq<char>) -> bool;

/// `<` on `Path`s, as `PathBuf` sorts them.  The contract names the result
/// and claims that it depends on the two path texts alone.
#[verifier::external_body]
pub(crate) fn path_less(a: &str, b: &str) -> (r: bool)
    ensures
        r == path_lt(a@, b@),
{
    std::path::Path::new(a) < std::path::Path::new(b)
}

} // verus!
