//! File names, stems and extensions of paths, for paths that every platform
//! splits the same way.

use vstd::prelude::*;
use crate::text::opt_view;

verus! {

/// The position of the last `c` in `s`, if there is one.
pub open spec fn find_last(s: Seq<char>, c: char) -> Option<int>
    decreases s.len(),
{
    if s.len() == 0 {
        None
    } else if s.last() == c {
        Some(s.len() - 1)
    } else {
        find_last(s.drop_last(), c)
    }
}

/// A path that Unix and Windows split alike: `/` is its only separator (it
/// holds no `\`), its second character is not `:` (so it has no Windows
/// drive prefix `X:`), and it does not begin with `//` (so no UNC, verbatim
/// or device prefix). A `:` elsewhere is an ordinary character on both.
pub open spec fn is_plain_path(p: Seq<char>) -> bool {
    &&& !p.contains('\\')
    &&& !(p.len() >= 2 && p[1] == ':')
    &&& !(p.len() >= 2 && p[0] == '/' && p[1] == '/')
}

/// A plain path that, as the documentation of `Path::file_name` shows, has
/// no file name: `/`, `..`, or a path that ends in `/..`.
pub open spec fn has_no_file_name(p: Seq<char>) -> bool {
    &&& is_plain_path(p)
    &&& {
        ||| p == seq!['/']
        ||| p == seq!['.', '.']
        ||| (p.len() >= 3 && p.skip(p.len() - 3) == seq!['/', '.', '.'])
    }
}

/// The file name of a plain path: the text after its last `/` (or the whole
/// path where it has none), where that text is a name, not empty and not
/// `.` or `..`. `None` for other paths, whatever their file name.
pub open spec fn plain_file_name(p: Seq<char>) -> Option<Seq<char>> {
    if is_plain_path(p) {
        let name = match find_last(p, '/') {
            Some(i) => p.skip(i + 1),
            None => p,
        };
        if name.len() > 0 && name != seq!['.'] && name != seq!['.', '.'] {
            Some(name)
        } else {
            None
        }
    } else {
        None
    }
}

/// The extension of a file name, as `Path::extension` documents it: none
/// where the name holds no `.`, or holds one only at its start; otherwise
/// the text after the final `.`.
pub open spec fn name_extension(name: Seq<char>) -> Option<Seq<char>> {
    match find_last(name, '.') {
        Some(d) => if d > 0 {
            Some(name.skip(d + 1))
        } else {
            None
        },
        None => None,
    }
}

/// The stem of a file name, as `Path::file_stem` documents it: the whole
/// name where it holds no `.`, or holds one only at its start; otherwise the
/// text before the final `.`.
pub open spec fn name_stem(name: Seq<char>) -> Seq<char> {
    match find_last(name, '.') {
        Some(d) => if d > 0 {
            name.take(d)
        } else {
            name
        },
        None => name,
    }
}

/// The file stem of a plain path.
pub open spec fn plain_stem(p: Seq<char>) -> Option<Seq<char>> {
    match plain_file_name(p) {
        Some(name) => Some(name_stem(name)),
        None => None,
    }
}

/// The extension of a plain path.
pub open spec fn plain_extension(p: Seq<char>) -> Option<Seq<char>> {
    match plain_file_name(p) {
        Some(name) => name_extension(name),
        None => None,
    }
}

/// A plain path with its extension set to `ext` (not empty): the old
/// extension replaced, or `.ext` added where there was none.
pub open spec fn with_extension(p: Seq<char>, ext: Seq<char>) -> Seq<char> {
    match plain_extension(p) {
        Some(old) => p.take(p.len() - old.len()) + ext,
        None => p + seq!['.'] + ext,
    }
}

/// Calls `std::path::Path::file_stem` on `path` and copies the stem into a
/// `String` (the path is UTF-8, so the copy loses nothing). Stated: for a
/// plain path (see `is_plain_path`) whose last component is a name, the stem
/// that the documentation of `Path::file_name` and `Path::file_stem`
/// describes, and none for a plain path that has no file name (`/`, or a
/// path that ends in `..`). Left unsaid: the result for other paths, which
/// platforms split differently.
#[verifier::external_body]
pub(crate) fn path_file_stem(path: &str) -> (r: Option<String>)
    ensures
        plain_stem(path@) is Some ==> r is Some && r.unwrap()@ == plain_stem(path@).unwrap(),
        has_no_file_name(path@) ==> r is None,
{
    match std::path::Path::new(path).file_stem() {
        Some(stem) => Some(stem.to_string_lossy().into_owned()),
        None => None,
    }
}

/// Calls `std::path::Path::extension` on `path` and copies the extension into
/// a `String`. Stated: for a plain path whose last component is a name, the
/// extension that the documentation of `Path::file_name` and
/// `Path::extension` describes; and for any path without a `.`, none (the
/// file name is a part of the path). Left unsaid: the result for other
/// paths, which platforms split differently.
#[verifier::external_body]
pub(crate) fn path_extension(path: &str) -> (r: Option<String>)
    ensures
        plain_file_name(path@) is Some ==> opt_view(r) == plain_extension(path@),
        !path@.contains('.') ==> r is None,
{
    match std::path::Path::new(path).extension() {
        Some(ext) => Some(ext.to_string_lossy().into_owned()),
        None => None,
    }
}

/// Calls `std::path::Path::with_extension(path, ext)` and copies the result
/// into a `String`. `ext` holds no separator (std panics on one). Stated:
/// for a plain path whose last component is a name and a non-empty `ext`,
/// the result that the documentation of `PathBuf::set_extension` describes
/// (the extension replaced, or added where there was none). Left unsaid: the
/// result for other paths.
#[verifier::external_body]
pub(crate) fn path_with_extension(path: &str, ext: &str) -> (r: String)
    requires
        !ext@.contains('/'),
        !ext@.contains('\\'),
    ensures
        plain_file_name(path@) is Some && ext@.len() > 0 ==> r@ == with_extension(path@, ext@),
{
    std::path::Path::new(path).with_extension(ext).to_string_lossy().into_owned()
}

} // verus!
