//! The context capsule's markers, and the cleaning and bounding of the values
//! that go into it.

use vstd::prelude::*;

use crate::markers::{
    inert, lacks, lacks_from, lemma_clean_across, lemma_clean_take, lemma_inert, lemma_lacks_clean,
    lemma_lacks_from, lemma_replace_cleans,
};
use crate::search::{occurs, occurs_at, replace, replace_chars, replace_from};
use crate::split::{join, join_chars, lemma_words, split_white_space, words};
use crate::text::{
    char_texts, from_chars, is_blank, is_white_space, push_chars, sub_chars, to_chars,
};

verus! {

/// Opens the context capsule.
pub const CAPSULE_START: &'static str = "<codex_link_context_capsule>";

/// Closes the context capsule.
pub const CAPSULE_END: &'static str = "</codex_link_context_capsule>";

/// At most `max_chars` characters of `s`, with a note where some were dropped.
/// The note is counted in, unless `max_chars` is too small to hold it.
pub open spec fn truncated(s: Seq<char>, max_chars: nat) -> Seq<char> {
    if s.len() <= max_chars {
        s
    } else {
        let keep = if max_chars > 17 {
            max_chars - 16
        } else {
            1
        };
        s.take(keep) + " ... [truncated]"@
    }
}

/// `value` on one line, with single spaces between its words.
pub open spec fn normalized(value: Seq<char>) -> Seq<char> {
    join(words(value), " "@)
}

/// `value` with the capsule's markers made harmless.
pub open spec fn without_markers(value: Seq<char>) -> Seq<char> {
    replace(
        replace(value, CAPSULE_START@, "[codex_link_context_capsule]"@),
        CAPSULE_END@,
        "[/codex_link_context_capsule]"@,
    )
}

/// What the capsule shows of `value`; nothing for a blank one.
pub open spec fn sanitized(value: Seq<char>, max_chars: nat) -> Option<Seq<char>> {
    if is_blank(value) {
        None
    } else {
        Some(truncated(without_markers(normalized(value)), max_chars))
    }
}

/// Bounds a text.
pub fn truncate_chars(value: &str, max_chars: usize) -> (r: String)
    ensures
        r@ == truncated(value@, max_chars as nat),
{
    let chars = to_chars(value);
    if chars.len() <= max_chars {
        return from_chars(chars.as_slice());
    }
    let keep: usize = if max_chars > 17 {
        max_chars - 16
    } else {
        1
    };
    let prefix = sub_chars(chars.as_slice(), 0, keep);
    assert(prefix@ =~= value@.take(keep as int));
    let mut r = String::new();
    push_chars(&mut r, prefix.as_slice());
    r.append(" ... [truncated]");
    assert(r@ =~= truncated(value@, max_chars as nat));
    r
}

/// Makes the capsule's markers in a text harmless.
pub fn disarm_markers(value: &str) -> (r: String)
    ensures
        r@ == without_markers(value@),
{
    let line = to_chars(value);
    let start = to_chars(CAPSULE_START);
    let start_name = to_chars("[codex_link_context_capsule]");
    let line = replace_chars(line.as_slice(), start.as_slice(), start_name.as_slice());
    let end = to_chars(CAPSULE_END);
    let end_name = to_chars("[/codex_link_context_capsule]");
    let line = replace_chars(line.as_slice(), end.as_slice(), end_name.as_slice());
    from_chars(line.as_slice())
}

/// Cleans and bounds a value for the capsule.
pub fn sanitize_value(value: &str, max_chars: usize) -> (r: Option<String>)
    ensures
        r matches Some(s) ==> sanitized(value@, max_chars as nat) == Some(s@),
        r is None ==> sanitized(value@, max_chars as nat) is None,
{
    let chars = to_chars(value);
    let parts = split_white_space(chars.as_slice());
    proof {
        lemma_words(value@);
    }
    if parts.len() == 0 {
        assert(char_texts(parts@).len() == 0);
        return None;
    }
    assert(char_texts(parts@).len() > 0);
    let space = to_chars(" ");
    let line = join_chars(&parts, space.as_slice());
    let line = from_chars(line.as_slice());
    let line = disarm_markers(line.as_str());
    Some(truncate_chars(line.as_str(), max_chars))
}

/// A text is never longer than its bound, or than the least bound that has
/// room for the note.
pub proof fn lemma_truncated_len(s: Seq<char>, max_chars: nat)
    ensures
        truncated(s, max_chars).len() <= if max_chars < 17 {
            17
        } else {
            max_chars
        },
{
    reveal_strlit(" ... [truncated]");
}

/// The characters of the markers that matter to their occurrences.
pub proof fn lemma_marker_facts()
    ensures
        CAPSULE_START@.len() == 28,
        CAPSULE_END@.len() == 29,
        CAPSULE_START@[0] == '<',
        CAPSULE_END@[0] == '<',
        lacks(CAPSULE_START@, '\n'),
        lacks(CAPSULE_END@, '\n'),
        lacks(CAPSULE_START@, ' '),
        lacks(CAPSULE_END@, ' '),
        lacks_from(CAPSULE_START@, '[', 1),
        lacks_from(CAPSULE_END@, '[', 1),
        lacks_from(CAPSULE_START@, '<', 1),
        lacks_from(CAPSULE_END@, '<', 1),
{
    reveal_strlit("<codex_link_context_capsule>");
    reveal_strlit("</codex_link_context_capsule>");
    reveal_with_fuel(lacks_from, 30);
    assert(lacks_from(CAPSULE_START@, '\n', 0));
    assert(lacks_from(CAPSULE_END@, '\n', 0));
    assert(lacks_from(CAPSULE_START@, ' ', 0));
    assert(lacks_from(CAPSULE_END@, ' ', 0));
    lemma_lacks_from(CAPSULE_START@, '\n', 0);
    lemma_lacks_from(CAPSULE_END@, '\n', 0);
    lemma_lacks_from(CAPSULE_START@, ' ', 0);
    lemma_lacks_from(CAPSULE_END@, ' ', 0);
}

proof fn lemma_names_inert()
    ensures
        inert("[codex_link_context_capsule]"@, CAPSULE_START@),
        inert("[codex_link_context_capsule]"@, CAPSULE_END@),
        inert("[/codex_link_context_capsule]"@, CAPSULE_START@),
        inert("[/codex_link_context_capsule]"@, CAPSULE_END@),
{
    lemma_marker_facts();
    reveal_strlit("[codex_link_context_capsule]");
    reveal_strlit("[/codex_link_context_capsule]");
    reveal_with_fuel(lacks_from, 30);
    lemma_inert("[codex_link_context_capsule]"@, CAPSULE_START@, 0);
    lemma_inert("[codex_link_context_capsule]"@, CAPSULE_END@, 0);
    lemma_inert("[/codex_link_context_capsule]"@, CAPSULE_START@, 0);
    lemma_inert("[/codex_link_context_capsule]"@, CAPSULE_END@, 0);
}

/// A text whose markers were made harmless holds neither of them.
pub proof fn lemma_disarmed_has_no_marker(value: Seq<char>)
    ensures
        !occurs(without_markers(value), CAPSULE_START@),
        !occurs(without_markers(value), CAPSULE_END@),
{
    lemma_marker_facts();
    lemma_names_inert();
    let once = replace(value, CAPSULE_START@, "[codex_link_context_capsule]"@);
    lemma_replace_cleans(value, CAPSULE_START@, "[codex_link_context_capsule]"@, CAPSULE_START@);
    lemma_replace_cleans(once, CAPSULE_END@, "[/codex_link_context_capsule]"@, CAPSULE_START@);
    lemma_replace_cleans(once, CAPSULE_END@, "[/codex_link_context_capsule]"@, CAPSULE_END@);
}

proof fn lemma_nothing_to_replace(s: Seq<char>, pat: Seq<char>, to: Seq<char>, i: int)
    requires
        !occurs(s, pat),
        0 <= i <= s.len(),
    ensures
        replace_from(s, pat, to, i) == s.skip(i),
    decreases s.len() - i,
{
    if i < s.len() {
        assert(!occurs_at(s, pat, i));
        lemma_nothing_to_replace(s, pat, to, i + 1);
        assert(seq![s[i]] + s.skip(i + 1) =~= s.skip(i));
    } else {
        assert(s.skip(i) =~= Seq::empty());
    }
}

/// A text that holds neither marker stays as it is.
pub proof fn lemma_nothing_to_disarm(value: Seq<char>)
    requires
        !occurs(value, CAPSULE_START@),
        !occurs(value, CAPSULE_END@),
    ensures
        without_markers(value) == value,
{
    lemma_nothing_to_replace(value, CAPSULE_START@, "[codex_link_context_capsule]"@, 0);
    lemma_nothing_to_replace(value, CAPSULE_END@, "[/codex_link_context_capsule]"@, 0);
    assert(value.skip(0) =~= value);
}

proof fn lemma_join_first(parts: Seq<Seq<char>>, sep: Seq<char>)
    requires
        parts.len() > 0,
        parts[0].len() > 0,
    ensures
        join(parts, sep).len() > 0,
        join(parts, sep)[0] == parts[0][0],
    decreases parts.len(),
{
    if parts.len() > 1 {
        lemma_join_first(parts.drop_last(), sep);
    }
}

proof fn lemma_replaced_first(s: Seq<char>, pat: Seq<char>, to: Seq<char>)
    requires
        s.len() > 0,
        to.len() > 0,
        !is_white_space(s[0]),
        !is_white_space(to[0]),
    ensures
        replace(s, pat, to).len() > 0,
        !is_white_space(replace(s, pat, to)[0]),
{
}

/// A cleaned value is not blank.
pub proof fn lemma_sanitized_not_blank(value: Seq<char>, max_chars: nat)
    requires
        !is_blank(value),
    ensures
        sanitized(value, max_chars) is Some,
        !is_blank(sanitized(value, max_chars)->0),
{
    lemma_words(value);
    reveal_strlit("[codex_link_context_capsule]");
    reveal_strlit("[/codex_link_context_capsule]");
    let line = normalized(value);
    assert(!is_white_space(words(value)[0][0]));
    lemma_join_first(words(value), " "@);
    let once = replace(line, CAPSULE_START@, "[codex_link_context_capsule]"@);
    lemma_replaced_first(line, CAPSULE_START@, "[codex_link_context_capsule]"@);
    lemma_replaced_first(once, CAPSULE_END@, "[/codex_link_context_capsule]"@);
    let r = sanitized(value, max_chars)->0;
    assert(r[0] == without_markers(line)[0]);
}

/// A cleaned value holds neither of the capsule's markers, whatever it was
/// made from and wherever it was cut.
pub proof fn lemma_sanitized_has_no_marker(value: Seq<char>, max_chars: nat)
    requires
        sanitized(value, max_chars) is Some,
    ensures
        !occurs(sanitized(value, max_chars)->0, CAPSULE_START@),
        !occurs(sanitized(value, max_chars)->0, CAPSULE_END@),
{
    lemma_marker_facts();
    let twice = without_markers(normalized(value));
    lemma_disarmed_has_no_marker(normalized(value));
    if twice.len() > max_chars {
        let keep = if max_chars > 17 {
            max_chars - 16
        } else {
            1
        };
        reveal_strlit(" ... [truncated]");
        let note = " ... [truncated]"@;
        let rest = note.skip(1);
        assert(truncated(twice, max_chars) =~= twice.take(keep) + seq![' '] + rest);
        lemma_clean_take(twice, keep, CAPSULE_START@);
        lemma_clean_take(twice, keep, CAPSULE_END@);
        reveal_with_fuel(lacks_from, 17);
        assert(lacks_from(rest, '<', 0));
        lemma_lacks_from(rest, '<', 0);
        lemma_lacks_clean(rest, CAPSULE_START@);
        lemma_lacks_clean(rest, CAPSULE_END@);
        lemma_clean_across(twice.take(keep), ' ', rest, CAPSULE_START@);
        lemma_clean_across(twice.take(keep), ' ', rest, CAPSULE_END@);
    }
}

} // verus!
