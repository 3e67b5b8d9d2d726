//! Regular expressions, from the `regex-lite` crate.

use regex_lite::Regex;
use vstd::arithmetic::power::pow;
use vstd::prelude::*;

use crate::markers::{lacks, occurrences};
use crate::text::{is_white_space, opt_text};

verus! {

#[verifier::external_type_specification]
#[verifier::external_body]
pub struct ExRegex(regex_lite::Regex);

#[verifier::external_type_specification]
#[verifier::external_body]
pub struct ExRegexError(regex_lite::Error);

/// The pattern that an expression was made from.
pub uninterp spec fn regex_source(regex: Regex) -> Seq<char>;

/// What is wrong with the syntax of a pattern; nothing where it is valid.
pub uninterp spec fn regex_syntax_error(pattern: Seq<char>) -> Option<Seq<char>>;

/// Whether a pattern matches somewhere in a text.
pub uninterp spec fn regex_matches(pattern: Seq<char>, text: Seq<char>) -> bool;

/// The first group of each match of a pattern in a text, in order; none where
/// the group took no part in the match.
pub uninterp spec fn regex_groups(pattern: Seq<char>, text: Seq<char>) -> Seq<Option<Seq<char>>>;

/// Whether a character has a meaning of its own in a pattern.
pub open spec fn is_meta(c: char) -> bool {
    c == '\\' || c == '.' || c == '+' || c == '*' || c == '?' || c == '(' || c == ')' || c == '|'
        || c == '[' || c == ']' || c == '{' || c == '}' || c == '^' || c == '$' || c == '#' || c
        == '&' || c == '-' || c == '~'
}

/// `s` with a backslash before each character that has a meaning of its own.
pub open spec fn escaped(s: Seq<char>) -> Seq<char>
    decreases s.len(),
{
    if s.len() == 0 {
        Seq::empty()
    } else if is_meta(s.last()) {
        escaped(s.drop_last()) + seq!['\\', s.last()]
    } else {
        escaped(s.drop_last()).push(s.last())
    }
}

/// Most characters of a pattern that is known to be small enough, each counted
/// as often as it may be copied.
pub const MAX_SMALL_PATTERN_CHARS: usize = 10_000;

/// Whether the last brace of a text opens.
pub open spec fn is_open(s: Seq<char>) -> bool
    decreases s.len(),
{
    s.len() > 0 && (s.last() == '{' || (s.last() != '}' && is_open(s.drop_last())))
}

/// The number in whose digits a text ends; zero where it ends in none.
pub open spec fn number_at_end(s: Seq<char>) -> nat
    decreases s.len(),
{
    if s.len() > 0 && '0' <= s.last() && s.last() <= '9' {
        number_at_end(s.drop_last()) * 10 + (s.last() as nat - '0' as nat) as nat
    } else {
        0
    }
}

/// The largest number in braces.
pub open spec fn largest_count(s: Seq<char>) -> nat
    decreases s.len(),
{
    if s.len() == 0 {
        0
    } else {
        let before = largest_count(s.drop_last());
        if is_open(s) && number_at_end(s) > before {
            number_at_end(s)
        } else {
            before
        }
    }
}

/// Whether nothing stands in braces that a pattern can tell to skip: neither
/// white space nor the start of a comment.
pub open spec fn is_tight(pattern: Seq<char>) -> bool {
    forall|i: int|
        0 <= i < pattern.len() && is_open(#[trigger] pattern.take(i)) ==> !is_white_space(
            pattern[i],
        ) && pattern[i] != '#'
}

/// Whether every brace that opens stands right behind a character or a class,
/// so that no group and no repetition is repeated by a count.
pub open spec fn is_flat(pattern: Seq<char>) -> bool {
    forall|i: int|
        0 <= i < pattern.len() && #[trigger] pattern[i] == '{' ==> i > 0 && !is_white_space(
            pattern[i - 1],
        ) && pattern[i - 1] != ')' && pattern[i - 1] != '}' && pattern[i - 1] != '?' && pattern[i
            - 1] != '*' && pattern[i - 1] != '+'
}

/// How often a part of a pattern may be copied at most: counts multiply where
/// one stands in what another repeats.
pub open spec fn most_copies(pattern: Seq<char>) -> int {
    let once = largest_count(pattern) + 1;
    if is_flat(pattern) {
        once as int
    } else {
        pow(once as int, occurrences(pattern, '{'))
    }
}

/// Whether a pattern is short, also where every counted repetition is written
/// out, so that its expression is small.
pub open spec fn is_small_pattern(pattern: Seq<char>) -> bool {
    if lacks(pattern, '{') {
        pattern.len() <= MAX_SMALL_PATTERN_CHARS
    } else {
        is_tight(pattern) && pattern.len() * most_copies(pattern) <= MAX_SMALL_PATTERN_CHARS
    }
}

/// Whether every character of a pattern stands for itself.
pub open spec fn is_literal_pattern(pattern: Seq<char>) -> bool {
    forall|i: int| 0 <= i < pattern.len() ==> !is_meta(#[trigger] pattern[i])
}

/// The pattern that finds a name, whatever its case, and the number behind it.
pub open spec fn named_number_pattern(name: Seq<char>) -> Seq<char> {
    r"(?i)\b"@ + escaped(name)
        + r"\b\s*[:=]\s*([-+]?(?:\d+(?:\.\d*)?|\.\d+)(?:[eE][-+]?\d+)?)"@
}

/// `regex_lite::escape`: the text as a pattern that matches it literally.
pub assume_specification[ regex_lite::escape ](pattern: &str) -> (r: String)
    ensures
        r@ == escaped(pattern@),
;

/// `regex_lite::Regex::new`: the expression of a pattern. It fails with what is
/// wrong with the pattern's syntax; a valid pattern can fail too, where its
/// expression takes more than ten mebibytes. A counted repetition is compiled
/// to as many copies of what it repeats as its count says, and a character to
/// fewer than two hundred bytes, so that a pattern that is short with its
/// copies written out stays far below that. A pattern of which every character
/// stands for itself, and the one that finds a name and the number behind it,
/// are valid too. Which longer patterns fail, and what is said then, nothing is
/// claimed of.
#[verifier::external_body]
pub(crate) fn compile_regex(pattern: &str) -> (r: Result<Regex, String>)
    ensures
        r matches Ok(regex) ==> regex_source(regex) == pattern@ && regex_syntax_error(
            pattern@,
        ) is None,
        r matches Err(message) ==> regex_syntax_error(pattern@) is None || regex_syntax_error(
            pattern@,
        ) == Some(message@),
        regex_syntax_error(pattern@) is None && is_small_pattern(pattern@) ==> r is Ok,
        is_literal_pattern(pattern@) && is_small_pattern(pattern@) ==> r is Ok,
        forall|name: Seq<char>|
            pattern@ == #[trigger] named_number_pattern(name) && name.len()
                <= MAX_SMALL_PATTERN_CHARS ==> r is Ok,
{
    Regex::new(pattern).map_err(|error: regex_lite::Error| error.to_string())
}

/// `regex_lite::Regex::is_match`: whether the expression matches somewhere in
/// the text.
#[verifier::external_body]
pub(crate) fn regex_is_match(regex: &Regex, text: &str) -> (r: bool)
    ensures
        r == regex_matches(regex_source(*regex), text@),
{
    regex.is_match(text)
}

/// `regex_lite::Regex::captures_iter`: the first group of each match, in order.
#[verifier::external_body]
pub(crate) fn regex_first_groups(regex: &Regex, text: &str) -> (r: Vec<Option<String>>)
    ensures
        Seq::new(r@.len(), |i: int| opt_text(r@[i])) == regex_groups(regex_source(*regex), text@),
{
    regex
        .captures_iter(text)
        .map(|captures| captures.get(1).map(|group| group.as_str().to_string()))
        .collect()
}

} // verus!
