//! File paths, as far as their meaning is left to the platform.

use vstd::prelude::*;

use crate::split::{fields, join};
use crate::text::opt_text;

verus! {

/// Whether a path reads alike on every platform: it names no drive or share,
/// and nothing but a slash separates its parts.
pub open spec fn is_neutral(path: Seq<char>) -> bool {
    !path.contains('\\') && !(path.len() >= 2 && path[1] == ':') && !(path.len() >= 2 && path[0]
        == '/' && path[1] == '/')
}

/// The last position of a character; less than all where there is none.
pub open spec fn last_position(s: Seq<char>, c: char) -> int
    decreases s.len(),
{
    if s.len() == 0 {
        -1
    } else if s.last() == c {
        s.len() - 1
    } else {
        last_position(s.drop_last(), c)
    }
}

/// A name up to its last dot, unless that is its first character.
pub open spec fn stem(name: Seq<char>) -> Seq<char> {
    let dot = last_position(name, '.');
    if dot > 0 {
        name.take(dot)
    } else {
        name
    }
}

/// The parts of a path between slashes, without the root.
pub open spec fn parts(path: Seq<char>) -> Seq<Seq<char>> {
    if path.len() > 0 && path[0] == '/' {
        fields(path.skip(1), '/')
    } else {
        fields(path, '/')
    }
}

/// The parts that are neither empty nor stand for the directory itself.
pub open spec fn names(parts: Seq<Seq<char>>) -> Seq<Seq<char>>
    decreases parts.len(),
{
    if parts.len() == 0 {
        Seq::empty()
    } else {
        let before = names(parts.drop_last());
        if parts.last().len() == 0 || parts.last() == seq!['.'] {
            before
        } else {
            before.push(parts.last())
        }
    }
}

/// The components of a neutral path: a slash for the root, or a dot where the
/// path begins with one, and then its names.
pub open spec fn components(path: Seq<char>) -> Seq<Seq<char>> {
    if path.len() > 0 && path[0] == '/' {
        seq![seq!['/']] + names(parts(path))
    } else if parts(path)[0] == seq!['.'] {
        seq![seq!['.']] + names(parts(path))
    } else {
        names(parts(path))
    }
}

/// Whether a path is made of names alone, on every platform the same: no part
/// is empty or stands for the directory itself.
pub open spec fn is_plain(path: Seq<char>) -> bool {
    is_neutral(path) && forall|i: int|
        0 <= i < parts(path).len() ==> (#[trigger] parts(path)[i]).len() > 0 && parts(path)[i]
            != seq!['.']
}

/// What follows a plain root in a plain path, where the path stands below it.
pub open spec fn below(file: Seq<char>, root: Seq<char>) -> Option<Seq<char>> {
    if file == root {
        Some(Seq::empty())
    } else if file.len() > root.len() && file.take(root.len() as int) == root
        && file[root.len() as int] == '/' {
        Some(file.skip(root.len() as int + 1))
    } else {
        None
    }
}

/// Whether a text is what follows a neutral root in a neutral path, and there
/// is none where the path does not stand below the root. The components decide
/// that, so that a double slash, a dot or a slash at the end makes no
/// difference; how the text is written is told where the path is plain.
pub open spec fn follows(file: Seq<char>, root: Seq<char>, relative: Option<Seq<char>>) -> bool {
    let all = components(file);
    let first = components(root);
    &&& relative is Some <==> first.is_prefix_of(all)
    &&& relative matches Some(text) ==> components(text) == all.skip(first.len() as int)
    &&& is_plain(file) && first.len() > 0 ==> (relative matches Some(text) ==> text == join(
        all.skip(first.len() as int),
        "/"@,
    ))
    &&& is_plain(file) && is_plain(root) ==> relative == below(file, root)
}

/// Whether it is told what name a path ends with: it is neutral, and more than
/// the directory itself.
pub open spec fn tells_name(path: Seq<char>) -> bool {
    is_neutral(path) && components(path) != seq![seq!['.']]
}

/// The name that a path ends with, without its extension; none where the path
/// is empty, is the root, or ends with the directory above.
pub open spec fn title(path: Seq<char>) -> Option<Seq<char>> {
    let all = components(path);
    if all.len() == 0 || all.last() == seq!['/'] || all.last() == seq!['.', '.'] {
        None
    } else {
        Some(stem(all.last()))
    }
}

/// `std::path::Path::strip_prefix`: what follows `root` in `file`, where `file`
/// stands below it, by whole components. How a path falls into components
/// depends on the platform, so the claim is on neutral paths alone.
#[verifier::external_body]
pub(crate) fn path_below(file: &str, root: &str) -> (r: Option<String>)
    ensures
        is_neutral(file@) && is_neutral(root@) ==> follows(file@, root@, opt_text(r)),
{
    match std::path::Path::new(file).strip_prefix(root) {
        Ok(relative) => Some(relative.to_string_lossy().into_owned()),
        Err(_) => None,
    }
}

/// `std::path::Path::file_stem`: the last component of a path up to its last
/// dot; all of it where there is none, or none but at its start. There is none
/// where the last component is no name. How a path falls into components
/// depends on the platform, so the claim is on neutral paths alone; of a path
/// that is the directory itself, nothing is claimed.
#[verifier::external_body]
pub(crate) fn path_stem(path: &str) -> (r: Option<String>)
    ensures
        tells_name(path@) ==> opt_text(r) == title(path@),
{
    match std::path::Path::new(path).file_stem() {
        Some(stem) => Some(stem.to_string_lossy().into_owned()),
        None => None,
    }
}

} // verus!
