//! The facts of a task that outlive the compaction of a transcript.

use vstd::prelude::*;

use crate::decimal::{decimal_int, push_i64};
use crate::lists::{
    append_unique, append_unique_values, lemma_append_unique_again, lemma_append_unique_holds,
    lemma_append_unique_keeps, merge_option, merged_option, prepend_unique, push_unique,
    with_unique, with_unique_first,
};
use crate::sanitize::sanitized;
use crate::text::{blank, clone_opt, clone_strings, is_blank, opt_text, owned, texts};

verus! {

/// Thread-scoped Link context that should survive transcript compaction.
#[derive(Debug, PartialEq, Eq)]
pub struct LinkContextState {
    pub active_goal: Option<String>,
    pub success_criteria: Vec<String>,
    pub current_progress: Vec<String>,
    pub next_action: Option<String>,
    pub files_touched: Vec<String>,
    pub verified_evidence: Vec<String>,
    pub active_background_jobs: Vec<String>,
    pub open_blockers: Vec<String>,
}

/// The texts of a [`LinkContextState`].
pub struct ContextView {
    pub active_goal: Option<Seq<char>>,
    pub success_criteria: Seq<Seq<char>>,
    pub current_progress: Seq<Seq<char>>,
    pub next_action: Option<Seq<char>>,
    pub files_touched: Seq<Seq<char>>,
    pub verified_evidence: Seq<Seq<char>>,
    pub active_background_jobs: Seq<Seq<char>>,
    pub open_blockers: Seq<Seq<char>>,
}

impl View for LinkContextState {
    type V = ContextView;

    open spec fn view(&self) -> ContextView {
        ContextView {
            active_goal: opt_text(self.active_goal),
            success_criteria: texts(self.success_criteria@),
            current_progress: texts(self.current_progress@),
            next_action: opt_text(self.next_action),
            files_touched: texts(self.files_touched@),
            verified_evidence: texts(self.verified_evidence@),
            active_background_jobs: texts(self.active_background_jobs@),
            open_blockers: texts(self.open_blockers@),
        }
    }
}

/// Whether an optional text is absent or blank.
pub open spec fn is_blank_option(value: Option<Seq<char>>) -> bool {
    value matches Some(text) ==> is_blank(text)
}

/// Whether every text of a list is blank.
pub open spec fn all_blank(values: Seq<Seq<char>>) -> bool {
    forall|i: int| 0 <= i < values.len() ==> is_blank(#[trigger] values[i])
}

impl ContextView {
    /// No facts at all.
    pub open spec fn empty() -> ContextView {
        ContextView {
            active_goal: None,
            success_criteria: Seq::empty(),
            current_progress: Seq::empty(),
            next_action: None,
            files_touched: Seq::empty(),
            verified_evidence: Seq::empty(),
            active_background_jobs: Seq::empty(),
            open_blockers: Seq::empty(),
        }
    }

    /// Whether every fact is blank.
    pub open spec fn is_blank(self) -> bool {
        &&& is_blank_option(self.active_goal)
        &&& all_blank(self.success_criteria)
        &&& all_blank(self.current_progress)
        &&& is_blank_option(self.next_action)
        &&& all_blank(self.files_touched)
        &&& all_blank(self.verified_evidence)
        &&& all_blank(self.active_background_jobs)
        &&& all_blank(self.open_blockers)
    }

    /// These facts, with the facts of `other` that are not blank taken in.
    pub open spec fn merged(self, other: ContextView) -> ContextView {
        let max = usize::MAX as nat;
        ContextView {
            active_goal: merged_option(self.active_goal, other.active_goal),
            success_criteria: append_unique(self.success_criteria, other.success_criteria, max),
            current_progress: append_unique(self.current_progress, other.current_progress, max),
            next_action: merged_option(self.next_action, other.next_action),
            files_touched: append_unique(self.files_touched, other.files_touched, max),
            verified_evidence: append_unique(self.verified_evidence, other.verified_evidence, max),
            active_background_jobs: append_unique(
                self.active_background_jobs,
                other.active_background_jobs,
                max,
            ),
            open_blockers: append_unique(self.open_blockers, other.open_blockers, max),
        }
    }

    /// These facts, with those of the thread's goal.
    pub open spec fn with_goal(self, goal: ThreadGoal) -> ContextView {
        let progress = with_unique_first(
            with_unique_first(self.current_progress, "Goal status: "@ + goal.status_label@),
            goal_usage(goal),
        );
        ContextView {
            active_goal: Some(goal.objective@),
            current_progress: progress,
            open_blockers: match goal_blocker(goal.status) {
                Some(blocker) => with_unique(self.open_blockers, blocker),
                None => self.open_blockers,
            },
            ..self
        }
    }
}

/// Where a thread's goal stands.
#[derive(Clone, Copy, Debug, PartialEq, Eq, Structural)]
pub enum ThreadGoalStatus {
    Active,
    Paused,
    Blocked,
    UsageLimited,
    BudgetLimited,
    Complete,
}

/// What the context shows of a thread's goal.
pub struct ThreadGoal {
    pub objective: String,
    pub status: ThreadGoalStatus,
    /// The name under which the host shows `status`.
    pub status_label: String,
    pub tokens_used: i64,
    pub token_budget: Option<i64>,
    pub time_used_seconds: i64,
}

/// The line on what a goal has used.
pub open spec fn goal_usage(goal: ThreadGoal) -> Seq<char> {
    let budget = match goal.token_budget {
        Some(budget) => " / "@ + decimal_int(budget as int),
        None => Seq::empty(),
    };
    "Goal usage: "@ + decimal_int(goal.tokens_used as int) + budget + " tokens, "@ + decimal_int(
        goal.time_used_seconds as int,
    ) + " seconds"@
}

/// The blocker that a goal's status stands for.
pub open spec fn goal_blocker(status: ThreadGoalStatus) -> Option<Seq<char>> {
    match status {
        ThreadGoalStatus::Blocked => Some(
            "Goal is marked blocked; do not mark it complete until the blocker is resolved."@,
        ),
        ThreadGoalStatus::Paused => Some(
            "Goal is paused; wait for an explicit resume before continuing autonomous work."@,
        ),
        ThreadGoalStatus::UsageLimited => Some(
            "Goal is usage-limited; do not continue autonomous work without user direction."@,
        ),
        ThreadGoalStatus::BudgetLimited => Some(
            "Goal reached its token budget; do not continue autonomous work without user direction."@,
        ),
        ThreadGoalStatus::Active | ThreadGoalStatus::Complete => None,
    }
}

/// Whether the capsule shows a goal of this status.
pub fn should_include_goal_in_capsule(status: ThreadGoalStatus) -> (r: bool)
    ensures
        r == !(status is Complete),
{
    match status {
        ThreadGoalStatus::Complete => false,
        _ => true,
    }
}

/// Renders what a goal has used.
pub fn format_goal_usage(goal: &ThreadGoal) -> (r: String)
    ensures
        r@ == goal_usage(*goal),
{
    let mut r = owned("Goal usage: ");
    push_i64(&mut r, goal.tokens_used);
    match goal.token_budget {
        Some(budget) => {
            r.append(" / ");
            push_i64(&mut r, budget);
        },
        None => {},
    }
    r.append(" tokens, ");
    push_i64(&mut r, goal.time_used_seconds);
    r.append(" seconds");
    assert(r@ =~= goal_usage(*goal));
    r
}

fn blank_option(value: &Option<String>) -> (r: bool)
    ensures
        r == is_blank_option(opt_text(*value)),
{
    match value {
        Some(text) => blank(text.as_str()),
        None => true,
    }
}

fn blank_list(values: &Vec<String>) -> (r: bool)
    ensures
        r == all_blank(texts(values@)),
{
    let mut i: usize = 0;
    while i < values.len()
        invariant
            i <= values.len(),
            forall|j: int| 0 <= j < i ==> is_blank(#[trigger] texts(values@)[j]),
        decreases values.len() - i,
    {
        if !blank(values[i].as_str()) {
            assert(!is_blank(texts(values@)[i as int]));
            return false;
        }
        i += 1;
    }
    true
}

impl Default for LinkContextState {
    fn default() -> (r: Self)
        ensures
            r@ == ContextView::empty(),
    {
        let r = LinkContextState {
            active_goal: None,
            success_criteria: Vec::new(),
            current_progress: Vec::new(),
            next_action: None,
            files_touched: Vec::new(),
            verified_evidence: Vec::new(),
            active_background_jobs: Vec::new(),
            open_blockers: Vec::new(),
        };
        proof {
            let none: Seq<Seq<char>> = Seq::empty();
            assert(texts(r.success_criteria@) =~= none);
            assert(texts(r.current_progress@) =~= none);
            assert(texts(r.files_touched@) =~= none);
            assert(texts(r.verified_evidence@) =~= none);
            assert(texts(r.active_background_jobs@) =~= none);
            assert(texts(r.open_blockers@) =~= none);
        }
        r
    }
}

impl Clone for LinkContextState {
    fn clone(&self) -> (r: Self)
        ensures
            r@ == self@,
    {
        LinkContextState {
            active_goal: clone_opt(&self.active_goal),
            success_criteria: clone_strings(&self.success_criteria),
            current_progress: clone_strings(&self.current_progress),
            next_action: clone_opt(&self.next_action),
            files_touched: clone_strings(&self.files_touched),
            verified_evidence: clone_strings(&self.verified_evidence),
            active_background_jobs: clone_strings(&self.active_background_jobs),
            open_blockers: clone_strings(&self.open_blockers),
        }
    }
}

impl LinkContextState {
    /// Returns true when the state has no model-visible task facts.
    pub fn is_empty(&self) -> (r: bool)
        ensures
            r == self@.is_blank(),
    {
        blank_option(&self.active_goal) && blank_list(&self.success_criteria) && blank_list(
            &self.current_progress,
        ) && blank_option(&self.next_action) && blank_list(&self.files_touched) && blank_list(
            &self.verified_evidence,
        ) && blank_list(&self.active_background_jobs) && blank_list(&self.open_blockers)
    }

    /// Merges non-empty facts from `other`, preserving existing list order.
    pub fn merge_from(&mut self, other: &Self)
        ensures
            final(self)@ == old(self)@.merged(other@),
    {
        merge_option(&mut self.active_goal, &other.active_goal);
        append_unique_values(
            &mut self.success_criteria,
            other.success_criteria.as_slice(),
            None,
        );
        append_unique_values(
            &mut self.current_progress,
            other.current_progress.as_slice(),
            None,
        );
        merge_option(&mut self.next_action, &other.next_action);
        append_unique_values(&mut self.files_touched, other.files_touched.as_slice(), None);
        append_unique_values(
            &mut self.verified_evidence,
            other.verified_evidence.as_slice(),
            None,
        );
        append_unique_values(
            &mut self.active_background_jobs,
            other.active_background_jobs.as_slice(),
            None,
        );
        append_unique_values(&mut self.open_blockers, other.open_blockers.as_slice(), None);
    }

    /// A copy of the state with the facts of the thread's goal.
    pub fn merged_with_goal(&self, goal: &ThreadGoal) -> (r: Self)
        ensures
            r@ == self@.with_goal(*goal),
    {
        let mut state = self.clone();
        state.active_goal = Some(goal.objective.clone());
        let mut status = owned("Goal status: ");
        status.append(goal.status_label.as_str());
        prepend_unique(&mut state.current_progress, status);
        prepend_unique(&mut state.current_progress, format_goal_usage(goal));
        match goal.status {
            ThreadGoalStatus::Blocked => push_unique(
                &mut state.open_blockers,
                "Goal is marked blocked; do not mark it complete until the blocker is resolved.",
            ),
            ThreadGoalStatus::Paused => push_unique(
                &mut state.open_blockers,
                "Goal is paused; wait for an explicit resume before continuing autonomous work.",
            ),
            ThreadGoalStatus::UsageLimited => push_unique(
                &mut state.open_blockers,
                "Goal is usage-limited; do not continue autonomous work without user direction.",
            ),
            ThreadGoalStatus::BudgetLimited => push_unique(
                &mut state.open_blockers,
                "Goal reached its token budget; do not continue autonomous work without user direction.",
            ),
            ThreadGoalStatus::Active | ThreadGoalStatus::Complete => {},
        }
        state
    }
}

/// Merging the same facts once more changes nothing.
pub proof fn lemma_merge_again(state: ContextView, other: ContextView)
    ensures
        state.merged(other).merged(other) == state.merged(other),
{
    let max = usize::MAX as nat;
    lemma_append_unique_again(state.success_criteria, other.success_criteria, max);
    lemma_append_unique_again(state.current_progress, other.current_progress, max);
    lemma_append_unique_again(state.files_touched, other.files_touched, max);
    lemma_append_unique_again(state.verified_evidence, other.verified_evidence, max);
    lemma_append_unique_again(state.active_background_jobs, other.active_background_jobs, max);
    lemma_append_unique_again(state.open_blockers, other.open_blockers, max);
}

proof fn lemma_append_blank(values: Seq<Seq<char>>, additions: Seq<Seq<char>>)
    requires
        all_blank(additions),
    ensures
        append_unique(values, additions, usize::MAX as nat) == values,
    decreases additions.len(),
{
    if additions.len() > 0 {
        let rest = additions.drop_last();
        assert forall|i: int| 0 <= i < rest.len() implies is_blank(#[trigger] rest[i]) by {
            assert(rest[i] == additions[i]);
        }
        lemma_append_blank(values, rest);
        assert(is_blank(additions[additions.len() - 1]));
    }
}

/// Merging facts that are all blank, or none at all, changes nothing.
pub proof fn lemma_merge_blank(state: ContextView, other: ContextView)
    requires
        other.is_blank(),
    ensures
        state.merged(other) == state,
        ContextView::empty().is_blank(),
        state.merged(ContextView::empty()) == state,
{
    lemma_append_blank(state.success_criteria, other.success_criteria);
    lemma_append_blank(state.current_progress, other.current_progress);
    lemma_append_blank(state.files_touched, other.files_touched);
    lemma_append_blank(state.verified_evidence, other.verified_evidence);
    lemma_append_blank(state.active_background_jobs, other.active_background_jobs);
    lemma_append_blank(state.open_blockers, other.open_blockers);
}

/// Whether a list keeps the values of another first and in order, and holds
/// each of the additions that is not blank.
pub open spec fn takes_in(
    before: Seq<Seq<char>>,
    additions: Seq<Seq<char>>,
    after: Seq<Seq<char>>,
) -> bool {
    &&& before.len() <= after.len()
    &&& after.take(before.len() as int) == before
    &&& forall|i: int|
        0 <= i < additions.len() && sanitized(#[trigger] additions[i], usize::MAX as nat) is Some
            ==> after.contains(sanitized(additions[i], usize::MAX as nat)->0)
}

proof fn lemma_takes_in(before: Seq<Seq<char>>, additions: Seq<Seq<char>>)
    ensures
        takes_in(before, additions, append_unique(before, additions, usize::MAX as nat)),
{
    let max = usize::MAX as nat;
    lemma_append_unique_keeps(before, additions, max);
    assert forall|i: int|
        0 <= i < additions.len() && sanitized(
            #[trigger] additions[i],
            max,
        ) is Some implies append_unique(before, additions, max).contains(
        sanitized(additions[i], max)->0,
    ) by {
        lemma_append_unique_holds(before, additions, max, i);
    }
}

/// Merging keeps every listed fact in its place, and takes in every fact that
/// is not blank.
pub proof fn lemma_merge_keeps_order(state: ContextView, other: ContextView)
    ensures
        takes_in(
            state.success_criteria,
            other.success_criteria,
            state.merged(other).success_criteria,
        ),
        takes_in(
            state.current_progress,
            other.current_progress,
            state.merged(other).current_progress,
        ),
        takes_in(state.files_touched, other.files_touched, state.merged(other).files_touched),
        takes_in(
            state.verified_evidence,
            other.verified_evidence,
            state.merged(other).verified_evidence,
        ),
        takes_in(
            state.active_background_jobs,
            other.active_background_jobs,
            state.merged(other).active_background_jobs,
        ),
        takes_in(state.open_blockers, other.open_blockers, state.merged(other).open_blockers),
{
    lemma_takes_in(state.success_criteria, other.success_criteria);
    lemma_takes_in(state.current_progress, other.current_progress);
    lemma_takes_in(state.files_touched, other.files_touched);
    lemma_takes_in(state.verified_evidence, other.verified_evidence);
    lemma_takes_in(state.active_background_jobs, other.active_background_jobs);
    lemma_takes_in(state.open_blockers, other.open_blockers);
}

} // verus!
