//! Paths, read the way `std::path::Path` reads them.

use vstd::prelude::*;
use vstd::string::*;
use crate::text::owned;

verus! {

/// The index of the last `.` in a file name, if it holds one.
pub open spec fn last_dot(f: Seq<char>) -> Option<int>
    decreases f.len(),
{
    if f.len() == 0 {
        None
    } else if f.last() == '.' {
        Some(f.len() - 1)
    } else {
        last_dot(f.drop_last())
    }
}

/// The extension of a file name, as `std::path::Path::extension` documents
/// it: the text after the last `.`, unless the name holds no `.` or its
/// only `.` is the one it begins with (and `..` has none).
pub open spec fn name_extension(f: Seq<char>) -> Option<Seq<char>> {
    if f == seq!['.', '.'] {
        None
    } else {
        match last_dot(f) {
            Some(i) => if i > 0 {
                Some(f.skip(i + 1))
            } else {
                None
            },
            None => None,
        }
    }
}

/// The extension `std::path::Path::extension` finds in a path: that of its
/// file name, if it has one.
pub open spec fn extension_of(path: Seq<char>) -> Option<Seq<char>> {
    match file_name_of(path) {
        Some(f) => name_extension(f),
        None => None,
    }
}

/// The extension of a path, as `Path::extension` gives it.
pub(crate) fn path_extension(path: &str) -> (r: Option<String>)
    ensures
        r is Some <==> extension_of(path@) is Some,
        r matches Some(e) ==> extension_of(path@) == Some(e@),
{
    let f = match path_file_name(path) {
        Some(f) => f,
        None => return None,
    };
    let name = f.as_str();
    let n = name.unicode_len();
    if n == 2 && name.get_char(0) == '.' && name.get_char(1) == '.' {
        assert(name@ =~= seq!['.', '.']);
        return None;
    }
    assert(!(n == 2 && name@[0] == '.' && name@[1] == '.'));
    assert(name@ != seq!['.', '.']);
    let mut i: usize = n;
    assert(name@.take(n as int) =~= name@);
    while i > 0
        invariant
            i <= n == name@.len(),
            file_name_of(path@) == Some(name@),
            name@ != seq!['.', '.'],
            last_dot(name@) == last_dot(name@.take(i as int)),
        decreases i,
    {
        assert(name@.take(i as int).drop_last() =~= name@.take(i - 1));
        if name.get_char(i - 1) == '.' {
            if i == 1 {
                return None;
            }
            let e = name.substring_char(i, n);
            assert(e@ =~= name@.skip(i as int));
            return Some(owned(e));
        }
        i = i - 1;
    }
    None
}

/// Whether `std::path::Path` considers two paths equal.
pub uninterp spec fn same_path(a: Seq<char>, b: Seq<char>) -> bool;

/// Path equality, as `Path`'s `==` decides it.
///
/// Trusted: compares `std::path::Path::new(a) == std::path::Path::new(b)`.
/// The result is named by `same_path`: `Path` compares component by
/// component, which is not stated. What is stated is that `Path` is `Eq`,
/// as std documents it: a path equals itself, and the comparison is
/// symmetric.
#[verifier::external_body]
pub(crate) fn paths_equal(a: &str, b: &str) -> (r: bool)
    ensures
        r == same_path(a@, b@),
        a@ == b@ ==> r,
        r == same_path(b@, a@),
{
    std::path::Path::new(a) == std::path::Path::new(b)
}

/// The parent `std::path::Path::parent` finds for a path.
pub uninterp spec fn parent_of(path: Seq<char>) -> Option<Seq<char>>;

/// The parent of a path, as `Path::parent` gives it.
///
/// Trusted: calls `std::path::Path::parent` and converts the result to a
/// `String`. The result is named by `parent_of` and not stated.
#[verifier::external_body]
pub(crate) fn path_parent(path: &str) -> (r: Option<String>)
    ensures
        r is Some <==> parent_of(path@) is Some,
        r matches Some(p) ==> parent_of(path@) == Some(p@),
{
    match std::path::Path::new(path).parent() {
        Some(p) => Some(p.to_string_lossy().into_owned()),
        None => None,
    }
}

/// The last component `std::path::Path::file_name` finds for a path.
pub uninterp spec fn file_name_of(path: Seq<char>) -> Option<Seq<char>>;

/// The file name of a path, as `Path::file_name` gives it.
///
/// Trusted: calls `std::path::Path::file_name` and converts the result to a
/// `String`. The result is named by `file_name_of` and not stated.
#[verifier::external_body]
pub(crate) fn path_file_name(path: &str) -> (r: Option<String>)
    ensures
        r is Some <==> file_name_of(path@) is Some,
        r matches Some(n) ==> file_name_of(path@) == Some(n@),
{
    match std::path::Path::new(path).file_name() {
        Some(n) => Some(n.to_string_lossy().into_owned()),
        None => None,
    }
}

/// `base` joined with `p` as `PathBuf::push` joins on Unix: an absolute `p`
/// replaces `base`; otherwise `p` follows `base`, with a `/` between them
/// unless `base` is empty or already ends in one.
pub open spec fn joined(base: Seq<char>, p: Seq<char>) -> Seq<char> {
    if p.len() > 0 && p[0] == '/' {
        p
    } else if base.len() == 0 || base.last() == '/' {
        base + p
    } else {
        base + seq!['/'] + p
    }
}

/// `base` joined with `p`, as `Path::join` does on Unix.
pub fn join_path(base: &str, p: &str) -> (r: String)
    ensures
        r@ == joined(base@, p@),
{
    let n = base.unicode_len();
    if p.unicode_len() > 0 && p.get_char(0) == '/' {
        return String::from_str(p);
    }
    let mut out = String::from_str(base);
    if n > 0 && base.get_char(n - 1) != '/' {
        out.append("/");
        proof {
            reveal_strlit("/");
        }
    }
    out.append(p);
    out
}

} // verus!
