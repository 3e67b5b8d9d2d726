//! Sets of glob patterns, from the `globset` crate.
//!
//! Where a pattern or a path holds a backslash, whether it parses and what it
//! matches depends on the platform, so the contracts name a result only where
//! none stands in them.

use globset::{GlobBuilder, GlobSet, GlobSetBuilder};
use vstd::prelude::*;

use crate::markers::{lacks, occurrences};

verus! {

#[verifier::external_type_specification]
#[verifier::external_body]
pub struct ExGlobSetBuilder(globset::GlobSetBuilder);

#[verifier::external_type_specification]
#[verifier::external_body]
pub struct ExGlobSet(globset::GlobSet);

#[verifier::external_type_specification]
#[verifier::external_body]
pub struct ExGlobError(globset::Error);

/// The patterns that were added to a builder, in order.
pub uninterp spec fn builder_globs(builder: GlobSetBuilder) -> Seq<Seq<char>>;

/// The patterns of a set, in order.
pub uninterp spec fn set_globs(set: GlobSet) -> Seq<Seq<char>>;

/// Whether a text is a well-formed glob.
pub uninterp spec fn is_glob(pattern: Seq<char>) -> bool;

/// Whether a glob, in which `*` and `?` match a separator too, matches a path.
pub uninterp spec fn glob_matches(pattern: Seq<char>, path: Seq<char>) -> bool;

/// Whether a text means the same on every platform.
pub open spec fn is_portable(text: Seq<char>) -> bool {
    lacks(text, '\\')
}

/// Whether every text means the same on every platform.
pub open spec fn all_portable(values: Seq<Seq<char>>) -> bool {
    forall|i: int| 0 <= i < values.len() ==> is_portable(#[trigger] values[i])
}

/// Whether some glob matches a path.
pub open spec fn any_matches(patterns: Seq<Seq<char>>, path: Seq<char>) -> bool {
    exists|i: int| 0 <= i < patterns.len() && glob_matches(#[trigger] patterns[i], path)
}

/// Whether a character stands for itself in a glob.
pub open spec fn is_literal(c: char) -> bool {
    c != '?' && c != '*' && c != '[' && c != '{' && c != '}' && c != '\\'
}

/// Whether a glob is a path, in which every character stands for itself.
pub open spec fn is_path_glob(pattern: Seq<char>) -> bool {
    pattern.len() > 0 && forall|i: int|
        0 <= i < pattern.len() ==> is_literal(#[trigger] pattern[i])
}

/// Whether a glob is a star before an extension, as in `*.rs`.
pub open spec fn is_extension_glob(pattern: Seq<char>) -> bool {
    &&& pattern.len() > 2
    &&& pattern[0] == '*'
    &&& pattern[1] == '.'
    &&& forall|i: int|
        2 <= i < pattern.len() ==> is_literal(#[trigger] pattern[i]) && pattern[i] != '.'
            && pattern[i] != '/'
}

/// Whether a glob is a path or a star before an extension: for such a glob no
/// expression is compiled.
pub open spec fn is_simple(pattern: Seq<char>) -> bool {
    is_path_glob(pattern) || is_extension_glob(pattern)
}

/// Whether every glob is a path or a star before an extension.
pub open spec fn all_simple(patterns: Seq<Seq<char>>) -> bool {
    forall|i: int| 0 <= i < patterns.len() ==> is_simple(#[trigger] patterns[i])
}

/// Whether a simple glob matches a path: a path matches itself, and a star
/// before an extension every path that ends with the extension.
pub open spec fn simple_matches(pattern: Seq<char>, path: Seq<char>) -> bool {
    if is_path_glob(pattern) {
        path == pattern
    } else {
        let extension = pattern.skip(1);
        path.len() >= extension.len() && path.skip(path.len() - extension.len()) == extension
    }
}

/// Whether some simple glob matches a path.
pub open spec fn any_simple(patterns: Seq<Seq<char>>, path: Seq<char>) -> bool {
    exists|i: int| 0 <= i < patterns.len() && simple_matches(#[trigger] patterns[i], path)
}

/// Whether a glob is made of `?`, `*` and characters that stand for themselves.
pub open spec fn is_plain_glob(pattern: Seq<char>) -> bool {
    lacks(pattern, '[') && lacks(pattern, '{') && lacks(pattern, '}') && lacks(pattern, '\\')
}

/// Whether every glob is plain.
pub open spec fn all_plain(patterns: Seq<Seq<char>>) -> bool {
    forall|i: int| 0 <= i < patterns.len() ==> is_plain_glob(#[trigger] patterns[i])
}

/// The characters of all globs together.
pub open spec fn total_chars(patterns: Seq<Seq<char>>) -> nat
    decreases patterns.len(),
{
    if patterns.len() == 0 {
        0
    } else {
        total_chars(patterns.drop_last()) + patterns.last().len()
    }
}

/// Most globs of an ordinary set.
pub const MAX_ORDINARY_GLOBS: usize = 100;

/// Most characters of an ordinary set.
pub const MAX_ORDINARY_CHARS: usize = 1_000;

/// Most alternates of an ordinary glob.
pub const MAX_ORDINARY_ALTERNATES: usize = 50;

/// Most alternates of a glob that is taken at all.
pub const MAX_GLOB_ALTERNATES: usize = 1_000;

/// Whether a glob has no more alternates than are taken.
pub open spec fn is_taken(pattern: Seq<char>) -> bool {
    occurrences(pattern, '{') <= MAX_GLOB_ALTERNATES
}

/// Whether a glob means the same on every platform, and its alternates are too
/// few to stand deep in one another.
pub open spec fn is_ordinary_glob(pattern: Seq<char>) -> bool {
    is_portable(pattern) && occurrences(pattern, '{') <= MAX_ORDINARY_ALTERNATES
}

/// Whether globs are ordinary, and not so many nor so long that their
/// expressions could take too much room.
pub open spec fn is_ordinary(patterns: Seq<Seq<char>>) -> bool {
    &&& forall|i: int| 0 <= i < patterns.len() ==> is_ordinary_glob(#[trigger] patterns[i])
    &&& patterns.len() <= MAX_ORDINARY_GLOBS
    &&& total_chars(patterns) <= MAX_ORDINARY_CHARS
}

/// Whether a set can be made for certain of those of some texts that are globs.
pub open spec fn is_buildable(patterns: Seq<Seq<char>>) -> bool {
    all_simple(patterns) || is_ordinary(patterns)
}

/// `globset::GlobSetBuilder::new`: a builder without patterns.
pub assume_specification[ GlobSetBuilder::new ]() -> (r: GlobSetBuilder)
    ensures
        builder_globs(r) == Seq::<Seq<char>>::empty(),
;

/// `globset::GlobBuilder::build` and `globset::GlobSetBuilder::add`: a text
/// that is a glob joins the patterns, any other leaves them as they are. A
/// text without a class, alternates or a backslash is one. Alternates that stand
/// in one another take room on the stack, each time one level more, so that
/// their number is bounded.
#[verifier::external_body]
pub(crate) fn add_glob(builder: &mut GlobSetBuilder, pattern: &str) -> (r: Result<
    (),
    globset::Error,
>)
    requires
        is_taken(pattern@),
    ensures
        r is Ok ==> builder_globs(*final(builder)) == builder_globs(*old(builder)).push(pattern@),
        r is Err ==> builder_globs(*final(builder)) == builder_globs(*old(builder)),
        is_portable(pattern@) ==> (r is Ok <==> is_glob(pattern@)),
        is_plain_glob(pattern@) ==> r is Ok,
{
    match GlobBuilder::new(pattern).literal_separator(false).build() {
        Ok(glob) => {
            builder.add(glob);
            Ok(())
        }
        Err(error) => Err(error),
    }
}

/// `globset::GlobSetBuilder::build`: the set of the patterns that were added.
/// Where all are simple, as where there are none, nothing is compiled and it
/// succeeds. Others are compiled to an automaton that grows with their length
/// and may take ten mebibytes, of which an ordinary set needs a small part; a
/// class that was parsed becomes a valid class of bytes, and alternates become
/// groups, which may stand two hundred and fifty levels deep, three to each
/// pair of braces. Which other sets fail, nothing is claimed of.
#[verifier::external_body]
pub(crate) fn build_globs(builder: &GlobSetBuilder) -> (r: Result<GlobSet, globset::Error>)
    ensures
        r matches Ok(set) ==> set_globs(set) == builder_globs(*builder),
        is_buildable(builder_globs(*builder)) ==> r is Ok,
{
    builder.build()
}

/// `globset::GlobSet::is_match`: whether any glob of the set matches the path;
/// none does where there is no glob. What a simple glob matches is said in full.
#[verifier::external_body]
pub(crate) fn globs_match(set: &GlobSet, path: &str) -> (r: bool)
    ensures
        set_globs(*set).len() == 0 ==> !r,
        all_portable(set_globs(*set)) && is_portable(path@) ==> r == (exists|i: int|
            0 <= i < set_globs(*set).len() && glob_matches(#[trigger] set_globs(*set)[i], path@)),
        all_simple(set_globs(*set)) && is_portable(path@) ==> r == any_simple(
            set_globs(*set),
            path@,
        ),
{
    set.is_match(path)
}

} // verus!
