//! What holds of a rendered capsule: each fact stands in the section of its
//! own field, and each section shows nothing else.

use vstd::prelude::*;

use crate::capsule::{
    body_budget, bullet, bullets, capsule_text, list_section, single_section,
    DEFAULT_MAX_CAPSULE_TOKENS, DEFAULT_MAX_FIELD_CHARS,
};
use crate::choices::{is_choice, lemma_choice_step, lemma_no_choice, lemma_same_choice};
use crate::context::ContextView;
use crate::sanitize::sanitized;
use crate::text::is_blank;

verus! {

/// The list items of some texts, one under the other.
pub open spec fn items_text(items: Seq<Seq<char>>) -> Seq<char>
    decreases items.len(),
{
    if items.len() == 0 {
        Seq::empty()
    } else {
        "- "@ + items[0] + "\n"@ + items_text(items.skip(1))
    }
}

/// Whether the chosen positions are those of the values that are not blank.
pub open spec fn chooses_told(at: Seq<int>, values: Seq<Seq<char>>) -> bool {
    is_choice(at, values.len() as int, |i: int| !is_blank(values[i]))
}

/// Whether items are what a section shows of the values of its field: each that
/// is not blank, cleaned, in order; a note where all are blank.
pub open spec fn shows(values: Seq<Seq<char>>, items: Seq<Seq<char>>, max_chars: nat) -> bool {
    if forall|i: int| 0 <= i < values.len() ==> is_blank(#[trigger] values[i]) {
        items == seq!["(none recorded)"@]
    } else {
        exists|at: Seq<int>| #[trigger]
            chooses_told(at, values) && at.len() == items.len() && forall|j: int|
                0 <= j < items.len() ==> sanitized(values[at[j]], max_chars) == Some(
                    #[trigger] items[j],
                )
    }
}

/// The values of a field that holds one at most.
pub open spec fn values_of(value: Option<Seq<char>>) -> Seq<Seq<char>> {
    match value {
        Some(value) => seq![value],
        None => Seq::empty(),
    }
}

/// A heading with list items under it.
pub open spec fn under(heading: Seq<char>, items: Seq<Seq<char>>) -> Seq<char> {
    heading + ":\n"@ + items_text(items)
}

/// Whether a capsule shows each list of items under the heading of its field,
/// in the order of the fields, and nothing else between its markers.
pub open spec fn is_laid_out(capsule: Seq<char>, items: Seq<Seq<Seq<char>>>) -> bool {
    &&& items.len() == 8
    &&& capsule == "<codex_link_context_capsule>"@ + "\n"@ + (under("Active goal"@, items[0])
        + under("Success criteria"@, items[1]) + under("Current progress"@, items[2]) + under(
        "Next action"@,
        items[3],
    ) + under("Files touched"@, items[4]) + under("Verified evidence"@, items[5]) + under(
        "Background jobs"@,
        items[6],
    ) + under("Open blockers"@, items[7])) + "</codex_link_context_capsule>"@
}

proof fn lemma_items_push(items: Seq<Seq<char>>, item: Seq<char>)
    ensures
        items_text(items.push(item)) == items_text(items) + ("- "@ + item + "\n"@),
    decreases items.len(),
{
    let more = items.push(item);
    if items.len() == 0 {
        assert(more.skip(1) =~= Seq::empty());
        assert(items_text(more.skip(1)) =~= Seq::empty());
        assert(items_text(more) =~= items_text(items) + ("- "@ + item + "\n"@));
    } else {
        assert(more.skip(1) =~= items.skip(1).push(item));
        lemma_items_push(items.skip(1), item);
        assert(items_text(more) =~= items_text(items) + ("- "@ + item + "\n"@));
    }
}

proof fn lemma_bullets_show(values: Seq<Seq<char>>, max_chars: nat) -> (r: (
    Seq<int>,
    Seq<Seq<char>>,
))
    ensures
        chooses_told(r.0, values),
        r.0.len() == r.1.len(),
        forall|j: int|
            0 <= j < r.1.len() ==> sanitized(values[r.0[j]], max_chars) == Some(#[trigger] r.1[j]),
        bullets(values, max_chars) == items_text(r.1),
        bullets(values, max_chars).len() > 0 <==> r.1.len() > 0,
    decreases values.len(),
{
    let told = |i: int| !is_blank(values[i]);
    if values.len() == 0 {
        lemma_no_choice(told);
        (Seq::empty(), Seq::empty())
    } else {
        let rest = values.drop_last();
        let n = rest.len() as int;
        let (at, items) = lemma_bullets_show(rest, max_chars);
        lemma_same_choice(at, n, |i: int| !is_blank(rest[i]), told);
        lemma_choice_step(at, n, told);
        assert forall|j: int| 0 <= j < items.len() implies sanitized(values[at[j]], max_chars)
            == Some(#[trigger] items[j]) by {
            assert(sanitized(rest[at[j]], max_chars) == Some(items[j]));
        }
        match sanitized(values.last(), max_chars) {
            Some(item) => {
                lemma_items_push(items, item);
                reveal_strlit("- ");
                let more = items.push(item);
                let places = at.push(n);
                assert forall|j: int| 0 <= j < more.len() implies sanitized(
                    values[places[j]],
                    max_chars,
                ) == Some(#[trigger] more[j]) by {
                    if j < items.len() {
                        assert(more[j] == items[j] && places[j] == at[j]);
                    }
                }
                (places, more)
            },
            None => (at, items),
        }
    }
}

proof fn lemma_list_shows(heading: Seq<char>, values: Seq<Seq<char>>, max_chars: nat) -> (items:
    Seq<Seq<char>>)
    ensures
        shows(values, items, max_chars),
        list_section(heading, values, max_chars) == heading + ":\n"@ + items_text(items),
{
    let (at, items) = lemma_bullets_show(values, max_chars);
    if forall|i: int| 0 <= i < values.len() ==> is_blank(#[trigger] values[i]) {
        if at.len() > 0 {
            assert(is_blank(values[at[0]]));
        }
        let note = seq!["(none recorded)"@];
        lemma_items_push(Seq::empty(), "(none recorded)"@);
        assert(Seq::<Seq<char>>::empty().push("(none recorded)"@) =~= note);
        assert(items_text(Seq::<Seq<char>>::empty()) =~= Seq::empty());
        assert(items_text(note) =~= bullet("(none recorded)"@));
        note
    } else {
        let told = |i: int| !is_blank(values[i]);
        let i = choose|i: int| 0 <= i < values.len() && !is_blank(#[trigger] values[i]);
        assert(told(i));
        assert(at.contains(i));
        items
    }
}

proof fn lemma_single_shows(heading: Seq<char>, value: Option<Seq<char>>, max_chars: nat) -> (items:
    Seq<Seq<char>>)
    ensures
        shows(values_of(value), items, max_chars),
        single_section(heading, value, max_chars) == heading + ":\n"@ + items_text(items),
{
    let values = values_of(value);
    let items = lemma_list_shows(heading, values, max_chars);
    match value {
        Some(text) => {
            assert(values.drop_last() =~= Seq::empty());
            assert(values.last() == text);
            assert(bullets(values.drop_last(), max_chars) =~= Seq::empty());
            reveal_strlit("- ");
            match sanitized(text, max_chars) {
                Some(shown) => {
                    assert(bullets(values, max_chars) =~= bullet(shown));
                },
                None => {},
            }
        },
        None => {},
    }
    items
}

/// Every value of a field that is not blank is a list item of the section under
/// the heading of that field, and of no other; every item of a section comes
/// from its own field, in the field's order, and is the note that there is none
/// where all its values are blank.
pub proof fn lemma_each_section_shows_its_field(facts: ContextView, max_chars: nat)
    ensures
        exists|items: Seq<Seq<Seq<char>>>|
            {
                &&& #[trigger] is_laid_out(capsule_text(facts, max_chars), items)
                &&& shows(values_of(facts.active_goal), items[0], max_chars)
                &&& shows(facts.success_criteria, items[1], max_chars)
                &&& shows(facts.current_progress, items[2], max_chars)
                &&& shows(values_of(facts.next_action), items[3], max_chars)
                &&& shows(facts.files_touched, items[4], max_chars)
                &&& shows(facts.verified_evidence, items[5], max_chars)
                &&& shows(facts.active_background_jobs, items[6], max_chars)
                &&& shows(facts.open_blockers, items[7], max_chars)
            },
{
    let a = lemma_single_shows("Active goal"@, facts.active_goal, max_chars);
    let b = lemma_list_shows("Success criteria"@, facts.success_criteria, max_chars);
    let c = lemma_list_shows("Current progress"@, facts.current_progress, max_chars);
    let d = lemma_single_shows("Next action"@, facts.next_action, max_chars);
    let e = lemma_list_shows("Files touched"@, facts.files_touched, max_chars);
    let f = lemma_list_shows("Verified evidence"@, facts.verified_evidence, max_chars);
    let g = lemma_list_shows("Background jobs"@, facts.active_background_jobs, max_chars);
    let h = lemma_list_shows("Open blockers"@, facts.open_blockers, max_chars);
    let items = seq![a, b, c, d, e, f, g, h];
    let capsule = capsule_text(facts, max_chars);
    assert(is_laid_out(capsule, items));
}

/// A capsule that is cut leaves room for sixty-four tokens beside its body, as
/// long as the body keeps more than one. By default it has fifteen hundred
/// tokens, and a fact twelve hundred characters.
pub proof fn lemma_room_for_body(max_tokens: usize)
    ensures
        max_tokens >= 65 ==> body_budget(max_tokens) + 64 == max_tokens,
        max_tokens < 65 ==> body_budget(max_tokens) == 1,
        DEFAULT_MAX_CAPSULE_TOKENS == 1500,
        DEFAULT_MAX_FIELD_CHARS == 1200,
{
}

} // verus!
