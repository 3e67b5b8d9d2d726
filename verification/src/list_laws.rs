//! What holds of lists of facts, and of merging facts: what is added, where it
//! stands, and that nothing else changes.

use vstd::prelude::*;

use crate::choices::{is_choice, lemma_choice_step, lemma_no_choice, lemma_same_choice};
use crate::context::{goal_blocker, goal_usage, ContextView, ThreadGoal};
use crate::decimal::decimal_int;
use crate::lists::{append_unique, keep_last, with_unique_first, without};
use crate::sanitize::sanitized;
use crate::text::is_blank;

verus! {

/// Whether an addition is new to a list: it is not blank, and neither the list
/// nor an earlier addition reads the same once cleaned.
pub open spec fn is_new(
    values: Seq<Seq<char>>,
    additions: Seq<Seq<char>>,
    max_chars: nat,
    i: int,
) -> bool {
    sanitized(additions[i], max_chars) matches Some(text) && !values.contains(text) && forall|j: int|
        0 <= j < i ==> sanitized(#[trigger] additions[j], max_chars) != Some(text)
}

/// Whether the chosen positions are those of the new additions.
pub open spec fn chooses_new(
    at: Seq<int>,
    values: Seq<Seq<char>>,
    additions: Seq<Seq<char>>,
    max_chars: nat,
) -> bool {
    is_choice(at, additions.len() as int, |i: int| is_new(values, additions, max_chars, i))
}

/// Whether a list is another with the new ones of some additions behind it, each
/// cleaned, once, and in order.
pub open spec fn extends(
    after: Seq<Seq<char>>,
    values: Seq<Seq<char>>,
    additions: Seq<Seq<char>>,
    max_chars: nat,
) -> bool {
    exists|at: Seq<int>| #[trigger]
        chooses_new(at, values, additions, max_chars) && after.len() == values.len() + at.len() && (
        forall|i: int| 0 <= i < values.len() ==> #[trigger] after[i] == values[i]) && (forall|j: int|
            0 <= j < at.len() ==> sanitized(additions[#[trigger] at[j]], max_chars) == Some(
                after[values.len() + j],
            ))
}

/// Appending keeps what is there, and puts what is new behind it, each once and
/// in order.
pub proof fn lemma_append_extends(
    values: Seq<Seq<char>>,
    additions: Seq<Seq<char>>,
    max_chars: nat,
)
    ensures
        extends(append_unique(values, additions, max_chars), values, additions, max_chars),
{
    let at = lemma_append_places(values, additions, max_chars);
}

proof fn lemma_append_places(
    values: Seq<Seq<char>>,
    additions: Seq<Seq<char>>,
    max_chars: nat,
) -> (at: Seq<int>)
    ensures
        chooses_new(at, values, additions, max_chars),
        append_unique(values, additions, max_chars).len() == values.len() + at.len(),
        forall|i: int|
            0 <= i < values.len() ==> #[trigger] append_unique(values, additions, max_chars)[i]
                == values[i],
        forall|j: int|
            0 <= j < at.len() ==> sanitized(additions[#[trigger] at[j]], max_chars) == Some(
                append_unique(values, additions, max_chars)[values.len() + j],
            ),
    decreases additions.len(),
{
    let chosen = |i: int| is_new(values, additions, max_chars, i);
    let after = append_unique(values, additions, max_chars);
    if additions.len() == 0 {
        lemma_no_choice(chosen);
        Seq::empty()
    } else {
        let rest = additions.drop_last();
        let n = rest.len() as int;
        let before = append_unique(values, rest, max_chars);
        let at = lemma_append_places(values, rest, max_chars);
        let known = |i: int| is_new(values, rest, max_chars, i);
        assert forall|i: int| 0 <= i < n implies #[trigger] known(i) == chosen(i) by {
            lemma_new_alike(values, rest, additions, max_chars, i);
        }
        lemma_same_choice(at, n, known, chosen);
        lemma_choice_step(at, n, chosen);
        assert forall|j: int| 0 <= j < at.len() implies sanitized(
            additions[#[trigger] at[j]],
            max_chars,
        ) == Some(before[values.len() + j]) by {
            assert(rest[at[j]] == additions[at[j]]);
        }
        match sanitized(additions.last(), max_chars) {
            Some(text) => {
                lemma_known_or_new(values, rest, additions, max_chars, before, at, text);
                if before.contains(text) {
                    at
                } else {
                    let more = at.push(n);
                    assert forall|j: int| 0 <= j < more.len() implies sanitized(
                        additions[#[trigger] more[j]],
                        max_chars,
                    ) == Some(after[values.len() + j]) by {
                        if j < at.len() {
                            assert(more[j] == at[j]);
                            assert(after[values.len() + j] == before[values.len() + j]);
                        }
                    }
                    more
                }
            },
            None => at,
        }
    }
}

proof fn lemma_new_alike(
    values: Seq<Seq<char>>,
    rest: Seq<Seq<char>>,
    additions: Seq<Seq<char>>,
    max_chars: nat,
    i: int,
)
    requires
        0 <= i < rest.len() <= additions.len(),
        rest == additions.take(rest.len() as int),
    ensures
        is_new(values, rest, max_chars, i) == is_new(values, additions, max_chars, i),
{
    assert forall|j: int| 0 <= j < rest.len() implies #[trigger] rest[j] == additions[j] by {}
    match sanitized(additions[i], max_chars) {
        Some(text) => {
            if is_new(values, rest, max_chars, i) {
                assert forall|j: int| 0 <= j < i implies sanitized(
                    #[trigger] additions[j],
                    max_chars,
                ) != Some(text) by {
                    assert(rest[j] == additions[j]);
                }
            }
            if is_new(values, additions, max_chars, i) {
                assert forall|j: int| 0 <= j < i implies sanitized(#[trigger] rest[j], max_chars)
                    != Some(text) by {
                    assert(rest[j] == additions[j]);
                }
            }
        },
        None => {},
    }
}

proof fn lemma_known_or_new(
    values: Seq<Seq<char>>,
    rest: Seq<Seq<char>>,
    additions: Seq<Seq<char>>,
    max_chars: nat,
    before: Seq<Seq<char>>,
    at: Seq<int>,
    text: Seq<char>,
)
    requires
        additions.len() > 0,
        rest == additions.drop_last(),
        sanitized(additions.last(), max_chars) == Some(text),
        before == append_unique(values, rest, max_chars),
        before.len() == values.len() + at.len(),
        is_choice(
            at,
            rest.len() as int,
            |i: int| is_new(values, additions, max_chars, i),
        ),
        forall|i: int| 0 <= i < values.len() ==> #[trigger] before[i] == values[i],
        forall|j: int|
            0 <= j < at.len() ==> sanitized(additions[#[trigger] at[j]], max_chars) == Some(
                before[values.len() + j],
            ),
    ensures
        before.contains(text) <==> !is_new(values, additions, max_chars, rest.len() as int),
{
    let n = rest.len() as int;
    assert(additions[n] == additions.last());
    let chosen = |i: int| is_new(values, additions, max_chars, i);
    if before.contains(text) {
        let k = choose|k: int| 0 <= k < before.len() && before[k] == text;
        if k < values.len() {
            assert(values[k] == text);
        } else {
            let j = k - values.len();
            assert(sanitized(additions[at[j]], max_chars) == Some(text));
            assert(0 <= at[j] < n);
        }
    }
    if !is_new(values, additions, max_chars, n) {
        if values.contains(text) {
            let k = choose|k: int| 0 <= k < values.len() && values[k] == text;
            assert(before[k] == text);
        } else {
            let j = choose|j: int|
                0 <= j < n && sanitized(#[trigger] additions[j], max_chars) == Some(text);
            lemma_first_new(values, additions, max_chars, j, text);
            let i = choose|i: int|
                0 <= i <= j && #[trigger] is_new(values, additions, max_chars, i) && sanitized(
                    additions[i],
                    max_chars,
                ) == Some(text);
            assert(chosen(i));
            assert(at.contains(i));
            let k = choose|k: int| 0 <= k < at.len() && at[k] == i;
            assert(sanitized(additions[at[k]], max_chars) == Some(before[values.len() + k]));
        }
    }
}

proof fn lemma_first_new(
    values: Seq<Seq<char>>,
    additions: Seq<Seq<char>>,
    max_chars: nat,
    j: int,
    text: Seq<char>,
)
    requires
        0 <= j < additions.len(),
        sanitized(additions[j], max_chars) == Some(text),
        !values.contains(text),
    ensures
        exists|i: int|
            0 <= i <= j && #[trigger] is_new(values, additions, max_chars, i) && sanitized(
                additions[i],
                max_chars,
            ) == Some(text),
    decreases j,
{
    if !is_new(values, additions, max_chars, j) {
        let k = choose|k: int|
            0 <= k < j && sanitized(#[trigger] additions[k], max_chars) == Some(text);
        lemma_first_new(values, additions, max_chars, k, text);
    }
}

/// The last values of a list are its end, and as many as there are, up to the
/// bound.
pub proof fn lemma_keep_last<A>(values: Seq<A>, n: nat)
    ensures
        values.len() <= n ==> keep_last(values, n) == values,
        values.len() > n ==> keep_last(values, n).len() == n && forall|i: int|
            0 <= i < n ==> #[trigger] keep_last(values, n)[i] == values[values.len() - n + i],
{
}

/// Dropping a value keeps all others in their order.
pub proof fn lemma_without_keeps_order(values: Seq<Seq<char>>, value: Seq<char>) -> (at: Seq<int>)
    ensures
        is_choice(at, values.len() as int, |i: int| values[i] != value),
        without(values, value).len() == at.len(),
        forall|j: int|
            0 <= j < at.len() ==> #[trigger] without(values, value)[j] == values[at[j]],
    decreases values.len(),
{
    let chosen = |i: int| values[i] != value;
    if values.len() == 0 {
        lemma_no_choice(chosen);
        Seq::empty()
    } else {
        let rest = values.drop_last();
        let n = rest.len() as int;
        let at = lemma_without_keeps_order(rest, value);
        lemma_same_choice(at, n, |i: int| rest[i] != value, chosen);
        lemma_choice_step(at, n, chosen);
        if chosen(n) {
            let more = at.push(n);
            assert forall|j: int| 0 <= j < more.len() implies #[trigger] without(values, value)[j]
                == values[more[j]] by {
                if j < at.len() {
                    assert(without(rest, value)[j] == rest[at[j]]);
                }
            }
            more
        } else {
            assert forall|j: int| 0 <= j < at.len() implies #[trigger] without(values, value)[j]
                == values[at[j]] by {
                assert(without(rest, value)[j] == rest[at[j]]);
            }
            at
        }
    }
}

/// Whether an optional fact is that of the other where that is not blank, and
/// stays otherwise.
pub open spec fn takes_over(
    after: Option<Seq<char>>,
    before: Option<Seq<char>>,
    other: Option<Seq<char>>,
) -> bool {
    if other matches Some(text) && !is_blank(text) {
        after == sanitized(other->0, usize::MAX as nat)
    } else {
        after == before
    }
}

/// Merging takes each field from the same field of the other: a single fact
/// where the other has one, and of a list what is new, behind what is there.
pub proof fn lemma_merge_field_by_field(state: ContextView, other: ContextView)
    ensures
        ({
            let after = state.merged(other);
            let max = usize::MAX as nat;
            &&& takes_over(after.active_goal, state.active_goal, other.active_goal)
            &&& takes_over(after.next_action, state.next_action, other.next_action)
            &&& extends(after.success_criteria, state.success_criteria, other.success_criteria, max)
            &&& extends(after.current_progress, state.current_progress, other.current_progress, max)
            &&& extends(after.files_touched, state.files_touched, other.files_touched, max)
            &&& extends(
                after.verified_evidence,
                state.verified_evidence,
                other.verified_evidence,
                max,
            )
            &&& extends(
                after.active_background_jobs,
                state.active_background_jobs,
                other.active_background_jobs,
                max,
            )
            &&& extends(after.open_blockers, state.open_blockers, other.open_blockers, max)
        }),
{
    let max = usize::MAX as nat;
    lemma_append_extends(state.success_criteria, other.success_criteria, max);
    lemma_append_extends(state.current_progress, other.current_progress, max);
    lemma_append_extends(state.files_touched, other.files_touched, max);
    lemma_append_extends(state.verified_evidence, other.verified_evidence, max);
    lemma_append_extends(state.active_background_jobs, other.active_background_jobs, max);
    lemma_append_extends(state.open_blockers, other.open_blockers, max);
}

/// A goal is the active one, its status and what it has used stand among the
/// progress, and what stops it among the blockers; nothing that was there is
/// lost, and the other fields stay.
pub proof fn lemma_goal_is_shown(state: ContextView, goal: ThreadGoal)
    ensures
        ({
            let after = state.with_goal(goal);
            &&& after.active_goal == Some(goal.objective@)
            &&& after.current_progress.contains("Goal status: "@ + goal.status_label@)
            &&& exists|front: Seq<Seq<char>>|
                front.len() <= 2 && after.current_progress == #[trigger] (front
                    + state.current_progress)
            &&& goal.status is Active || goal.status is Complete ==> after.open_blockers
                == state.open_blockers
            &&& goal.token_budget is None ==> after.current_progress.contains(
                "Goal usage: "@ + decimal_int(goal.tokens_used as int) + " tokens, "@ + decimal_int(
                    goal.time_used_seconds as int,
                ) + " seconds"@,
            )
            &&& goal.token_budget matches Some(budget) ==> after.current_progress.contains(
                "Goal usage: "@ + decimal_int(goal.tokens_used as int) + " / "@ + decimal_int(
                    budget as int,
                ) + " tokens, "@ + decimal_int(goal.time_used_seconds as int) + " seconds"@,
            )
            &&& goal.status is Blocked ==> after.open_blockers.contains(
                "Goal is marked blocked; do not mark it complete until the blocker is resolved."@,
            )
            &&& goal.status is Paused ==> after.open_blockers.contains(
                "Goal is paused; wait for an explicit resume before continuing autonomous work."@,
            )
            &&& goal.status is UsageLimited ==> after.open_blockers.contains(
                "Goal is usage-limited; do not continue autonomous work without user direction."@,
            )
            &&& goal.status is BudgetLimited ==> after.open_blockers.contains(
                "Goal reached its token budget; do not continue autonomous work without user direction."@,
            )
            &&& after.open_blockers.len() <= state.open_blockers.len() + 1
            &&& forall|i: int|
                0 <= i < state.open_blockers.len() ==> #[trigger] after.open_blockers[i]
                    == state.open_blockers[i]
            &&& after.success_criteria == state.success_criteria
            &&& after.next_action == state.next_action
            &&& after.files_touched == state.files_touched
            &&& after.verified_evidence == state.verified_evidence
            &&& after.active_background_jobs == state.active_background_jobs
        }),
{
    let label = "Goal status: "@ + goal.status_label@;
    let usage = goal_usage(goal);
    let none: Seq<Seq<char>> = Seq::empty();
    let progress = state.current_progress;
    let after = state.with_goal(goal).current_progress;
    let first = with_unique_first(progress, label);
    assert(first.contains(label)) by {
        if !progress.contains(label) {
            assert(first[0] == label);
        }
    }
    let f = if progress.contains(label) {
        none
    } else {
        seq![label]
    };
    let g = if first.contains(usage) {
        none
    } else {
        seq![usage]
    };
    assert(first =~= f + progress);
    assert(after =~= g + f + progress);
    assert(after.contains(label)) by {
        let k = choose|k: int| 0 <= k < first.len() && first[k] == label;
        assert(after[g.len() + k] == label);
    }
    assert((g + f).len() <= 2);
    assert(after.contains(usage)) by {
        if first.contains(usage) {
            let k = choose|k: int| 0 <= k < first.len() && first[k] == usage;
            assert(after[g.len() + k] == usage);
        } else {
            assert(after[0] == usage);
        }
    }
    match goal.token_budget {
        Some(budget) => {
            assert(usage =~= "Goal usage: "@ + decimal_int(goal.tokens_used as int) + " / "@
                + decimal_int(budget as int) + " tokens, "@ + decimal_int(
                goal.time_used_seconds as int,
            ) + " seconds"@);
        },
        None => {
            assert(usage =~= "Goal usage: "@ + decimal_int(goal.tokens_used as int) + " tokens, "@
                + decimal_int(goal.time_used_seconds as int) + " seconds"@);
        },
    }
    match goal_blocker(goal.status) {
        Some(blocker) => {
            let blockers = state.with_goal(goal).open_blockers;
            if !state.open_blockers.contains(blocker) {
                assert(blockers[state.open_blockers.len() as int] == blocker);
            }
            assert(blockers.contains(blocker));
        },
        None => {},
    }
}

} // verus!
