//! Lists of facts: appending without repetition, with a bound on length.

use vstd::prelude::*;

use crate::sanitize::{sanitize_value, sanitized};
use crate::text::{contains_text, lemma_texts_push, opt_text, owned, str_eq, texts};

verus! {

/// Most characters of one recorded tool event.
pub const MAX_TOOL_EVENT_CHARS: usize = 900;

/// The last `n` of `values`.
pub open spec fn keep_last<A>(values: Seq<A>, n: nat) -> Seq<A> {
    if values.len() > n {
        values.skip(values.len() - n)
    } else {
        values
    }
}

/// `values` with `value` at the end, unless it is there already.
pub open spec fn with_unique(values: Seq<Seq<char>>, value: Seq<char>) -> Seq<Seq<char>> {
    if values.contains(value) {
        values
    } else {
        values.push(value)
    }
}

/// `values` with `value` at the start, unless it is there already.
pub open spec fn with_unique_first(values: Seq<Seq<char>>, value: Seq<char>) -> Seq<Seq<char>> {
    if values.contains(value) {
        values
    } else {
        seq![value] + values
    }
}

/// `values` without every occurrence of `value`.
pub open spec fn without(values: Seq<Seq<char>>, value: Seq<char>) -> Seq<Seq<char>>
    decreases values.len(),
{
    if values.len() == 0 {
        Seq::empty()
    } else if values.last() == value {
        without(values.drop_last(), value)
    } else {
        without(values.drop_last(), value).push(values.last())
    }
}

/// `values` followed by the cleaned `additions` that it lacks, in their order
/// and each once; blank additions are left out.
pub open spec fn append_unique(
    values: Seq<Seq<char>>,
    additions: Seq<Seq<char>>,
    max_chars: nat,
) -> Seq<Seq<char>>
    decreases additions.len(),
{
    if additions.len() == 0 {
        values
    } else {
        let before = append_unique(values, additions.drop_last(), max_chars);
        match sanitized(additions.last(), max_chars) {
            Some(value) => with_unique(before, value),
            None => before,
        }
    }
}

/// `append_unique`, of which only the last `max_len` stay where a bound is given.
pub open spec fn append_capped(
    values: Seq<Seq<char>>,
    additions: Seq<Seq<char>>,
    max_len: Option<usize>,
    max_chars: nat,
) -> Seq<Seq<char>> {
    match max_len {
        Some(n) => keep_last(append_unique(values, additions, max_chars), n as nat),
        None => append_unique(values, additions, max_chars),
    }
}

/// `target`, or the cleaned `source` where that is not blank.
pub open spec fn merged_option(target: Option<Seq<char>>, source: Option<Seq<char>>) -> Option<
    Seq<char>,
> {
    match source {
        Some(value) => match sanitized(value, usize::MAX as nat) {
            Some(value) => Some(value),
            None => target,
        },
        None => target,
    }
}

/// Drops the oldest values beyond `max_len`.
pub fn drop_oldest<A>(values: &mut Vec<A>, max_len: usize)
    ensures
        final(values)@ == keep_last(old(values)@, max_len as nat),
{
    let len = values.len();
    if len > max_len {
        let tail = values.split_off(len - max_len);
        *values = tail;
        assert(values@ =~= old(values)@.skip(len - max_len));
    }
}

/// Puts a value first, unless it is there already.
pub fn prepend_unique(values: &mut Vec<String>, value: String)
    ensures
        texts(final(values)@) == with_unique_first(texts(old(values)@), value@),
{
    if contains_text(values, value.as_str()) {
        return;
    }
    values.insert(0, value);
    assert(texts(values@) =~= seq![value@] + texts(old(values)@));
}

/// Puts a value last, unless it is there already.
pub fn push_unique(values: &mut Vec<String>, value: &str)
    ensures
        texts(final(values)@) == with_unique(texts(old(values)@), value@),
{
    if contains_text(values, value) {
        return;
    }
    let value = owned(value);
    values.push(value);
    proof {
        lemma_texts_push(old(values)@, value);
    }
}

/// Drops every occurrence of a value.
pub fn remove_text(values: &mut Vec<String>, value: &str)
    ensures
        texts(final(values)@) == without(texts(old(values)@), value@),
{
    let ghost all = texts(values@);
    let mut kept: Vec<String> = Vec::new();
    let mut i: usize = 0;
    assert(all.take(0) =~= Seq::empty());
    assert(texts(kept@) =~= Seq::empty());
    while i < values.len()
        invariant
            i <= values.len(),
            all == texts(values@),
            texts(kept@) == without(all.take(i as int), value@),
        decreases values.len() - i,
    {
        assert(all.take(i + 1).drop_last() =~= all.take(i as int));
        assert(all.take(i + 1).last() == values@[i as int]@);
        if !str_eq(values[i].as_str(), value) {
            let text = values[i].clone();
            proof {
                lemma_texts_push(kept@, text);
            }
            kept.push(text);
        }
        i += 1;
    }
    assert(all.take(i as int) =~= all);
    *values = kept;
}

/// Appends the cleaned additions that the list lacks, then drops the oldest
/// values beyond the bound.
pub fn append_unique_values_with_char_limit(
    values: &mut Vec<String>,
    additions: &[String],
    max_len: Option<usize>,
    max_chars: usize,
)
    ensures
        texts(final(values)@) == append_capped(
            texts(old(values)@),
            texts(additions@),
            max_len,
            max_chars as nat,
        ),
{
    let ghost start = texts(values@);
    let ghost all = texts(additions@);
    let mut i: usize = 0;
    assert(all.take(0) =~= Seq::empty());
    while i < additions.len()
        invariant
            i <= additions.len(),
            all == texts(additions@),
            texts(values@) == append_unique(start, all.take(i as int), max_chars as nat),
        decreases additions.len() - i,
    {
        assert(all.take(i + 1).drop_last() =~= all.take(i as int));
        assert(all.take(i + 1).last() == additions@[i as int]@);
        match sanitize_value(additions[i].as_str(), max_chars) {
            Some(value) => {
                push_unique(values, value.as_str());
            },
            None => {},
        }
        i += 1;
    }
    assert(all.take(i as int) =~= all);
    match max_len {
        Some(n) => {
            let ghost before = values@;
            drop_oldest(values, n);
            assert(texts(values@) =~= keep_last(texts(before), n as nat));
        },
        None => {},
    }
}

/// Appends the cleaned additions that the list lacks, whatever their length.
pub fn append_unique_values(values: &mut Vec<String>, additions: &[String], max_len: Option<usize>)
    ensures
        texts(final(values)@) == append_capped(
            texts(old(values)@),
            texts(additions@),
            max_len,
            usize::MAX as nat,
        ),
{
    append_unique_values_with_char_limit(values, additions, max_len, usize::MAX)
}

/// Appends one cleaned tool event, then drops the oldest beyond the bound.
pub fn push_unique_capped(values: &mut Vec<String>, value: String, max_len: usize)
    ensures
        texts(final(values)@) == append_capped(
            texts(old(values)@),
            seq![value@],
            Some(max_len),
            MAX_TOOL_EVENT_CHARS as nat,
        ),
{
    let mut additions: Vec<String> = Vec::new();
    additions.push(value);
    assert(texts(additions@) =~= seq![value@]);
    append_unique_values_with_char_limit(
        values,
        additions.as_slice(),
        Some(max_len),
        MAX_TOOL_EVENT_CHARS,
    )
}

/// Takes over a value that is not blank.
pub fn merge_option(target: &mut Option<String>, source: &Option<String>)
    ensures
        opt_text(*final(target)) == merged_option(opt_text(*old(target)), opt_text(*source)),
{
    match source {
        Some(value) => match sanitize_value(value.as_str(), usize::MAX) {
            Some(value) => {
                *target = Some(value);
            },
            None => {},
        },
        None => {},
    }
}

/// Appending keeps the values that are there, in their places.
pub proof fn lemma_append_unique_keeps(
    values: Seq<Seq<char>>,
    additions: Seq<Seq<char>>,
    max_chars: nat,
)
    ensures
        values.len() <= append_unique(values, additions, max_chars).len(),
        append_unique(values, additions, max_chars).take(values.len() as int) == values,
    decreases additions.len(),
{
    if additions.len() == 0 {
        assert(values.take(values.len() as int) =~= values);
    } else {
        lemma_append_unique_keeps(values, additions.drop_last(), max_chars);
        let n = values.len() as int;
        let before = append_unique(values, additions.drop_last(), max_chars);
        assert(append_unique(values, additions, max_chars).take(n) =~= before.take(n));
    }
}

/// Appending to a list without repetition gives a list without repetition.
pub proof fn lemma_append_unique_no_duplicates(
    values: Seq<Seq<char>>,
    additions: Seq<Seq<char>>,
    max_chars: nat,
)
    requires
        values.no_duplicates(),
    ensures
        append_unique(values, additions, max_chars).no_duplicates(),
    decreases additions.len(),
{
    if additions.len() > 0 {
        lemma_append_unique_no_duplicates(values, additions.drop_last(), max_chars);
    }
}

/// After appending, the list holds every cleaned addition.
pub proof fn lemma_append_unique_holds(
    values: Seq<Seq<char>>,
    additions: Seq<Seq<char>>,
    max_chars: nat,
    i: int,
)
    requires
        0 <= i < additions.len(),
        sanitized(additions[i], max_chars) is Some,
    ensures
        append_unique(values, additions, max_chars).contains(sanitized(additions[i], max_chars)->0),
    decreases additions.len(),
{
    let result = append_unique(values, additions, max_chars);
    let before = append_unique(values, additions.drop_last(), max_chars);
    let value = sanitized(additions[i], max_chars)->0;
    if i < additions.len() - 1 {
        lemma_append_unique_holds(values, additions.drop_last(), max_chars, i);
        let k = choose|k: int| 0 <= k < before.len() && before[k] == value;
        assert(result[k] == value);
    } else if !before.contains(value) {
        assert(result[result.len() - 1] == value);
    }
}

/// Appending the same values once more changes nothing.
pub proof fn lemma_append_unique_again(
    values: Seq<Seq<char>>,
    additions: Seq<Seq<char>>,
    max_chars: nat,
)
    ensures
        append_unique(append_unique(values, additions, max_chars), additions, max_chars)
            == append_unique(values, additions, max_chars),
{
    let once = append_unique(values, additions, max_chars);
    assert forall|i: int|
        0 <= i < additions.len() && sanitized(#[trigger] additions[i], max_chars) is Some implies once.contains(
        sanitized(additions[i], max_chars)->0,
    ) by {
        lemma_append_unique_holds(values, additions, max_chars, i);
    }
    lemma_append_unique_known(once, additions, max_chars);
}

proof fn lemma_append_unique_known(
    values: Seq<Seq<char>>,
    additions: Seq<Seq<char>>,
    max_chars: nat,
)
    requires
        forall|i: int|
            0 <= i < additions.len() && sanitized(#[trigger] additions[i], max_chars) is Some
                ==> values.contains(sanitized(additions[i], max_chars)->0),
    ensures
        append_unique(values, additions, max_chars) == values,
    decreases additions.len(),
{
    if additions.len() > 0 {
        assert forall|i: int|
            0 <= i < additions.drop_last().len() && sanitized(
                #[trigger] additions.drop_last()[i],
                max_chars,
            ) is Some implies values.contains(
            sanitized(additions.drop_last()[i], max_chars)->0,
        ) by {
            assert(additions.drop_last()[i] == additions[i]);
        }
        lemma_append_unique_known(values, additions.drop_last(), max_chars);
        assert(additions.last() == additions[additions.len() - 1]);
    }
}

/// A capped list never grows past its bound, and a new value is its last.
pub proof fn lemma_append_capped_bound(
    values: Seq<Seq<char>>,
    additions: Seq<Seq<char>>,
    max_len: usize,
    max_chars: nat,
)
    ensures
        append_capped(values, additions, Some(max_len), max_chars).len() <= max_len,
        additions.len() == 1 && max_len > 0 && sanitized(additions[0], max_chars) is Some
            && !values.contains(sanitized(additions[0], max_chars)->0) ==> append_capped(
            values,
            additions,
            Some(max_len),
            max_chars,
        ).last() == sanitized(additions[0], max_chars)->0,
{
    if additions.len() == 1 {
        assert(additions.drop_last() =~= Seq::empty());
        assert(additions.last() == additions[0]);
        reveal_with_fuel(append_unique, 2);
    }
}

/// A value that was dropped is gone, and the others stay.
pub proof fn lemma_without(values: Seq<Seq<char>>, value: Seq<char>)
    ensures
        !without(values, value).contains(value),
        forall|other: Seq<char>|
            other != value ==> (#[trigger] without(values, value).contains(other)
                <==> values.contains(other)),
    decreases values.len(),
{
    if values.len() > 0 {
        let rest = values.drop_last();
        let last = values.last();
        lemma_without(rest, value);
        let kept = without(rest, value);
        let r = without(values, value);
        assert forall|other: Seq<char>| other != value implies (#[trigger] r.contains(other)
            <==> values.contains(other)) by {
            if rest.contains(other) {
                let k = choose|k: int| 0 <= k < rest.len() && rest[k] == other;
                assert(values[k] == other);
                assert(kept.contains(other));
            }
            if kept.contains(other) {
                let k = choose|k: int| 0 <= k < kept.len() && kept[k] == other;
                assert(r[k] == other);
            }
            if values.contains(other) {
                let k = choose|k: int| 0 <= k < values.len() && values[k] == other;
                if k < rest.len() {
                    assert(rest[k] == other);
                } else {
                    assert(r[r.len() - 1] == other);
                }
            }
            if r.contains(other) {
                let k = choose|k: int| 0 <= k < r.len() && r[k] == other;
                if k < kept.len() {
                    assert(kept[k] == other);
                    assert(kept.contains(other));
                } else {
                    assert(values[values.len() - 1] == other);
                }
            }
        }
    }
}

} // verus!
