use codex_link::capsule::{
    fit_capsule, render_capsule_with_limits, wrap_capsule, CapsuleFit, DEFAULT_MAX_FIELD_CHARS,
};
use codex_link::context::{LinkContextState, ThreadGoal, ThreadGoalStatus};
use codex_link::sanitize::{sanitize_value, truncate_chars, CAPSULE_END, CAPSULE_START};
use codex_link::truncation::TruncationPolicy;

fn approx_token_count(text: &str) -> usize {
    (text.len() + 3) / 4
}

fn truncate_text(text: &str, policy: TruncationPolicy) -> String {
    let budget = match policy {
        TruncationPolicy::Bytes(bytes) => bytes,
        TruncationPolicy::Tokens(tokens) => tokens * 4,
    };
    if text.len() <= budget {
        return text.to_string();
    }
    let mut head = budget / 2;
    while !text.is_char_boundary(head) {
        head -= 1;
    }
    let mut tail = text.len() - budget / 2;
    while !text.is_char_boundary(tail) {
        tail += 1;
    }
    format!("{}...{}", &text[..head], &text[tail..])
}

fn goal(status: ThreadGoalStatus, token_budget: Option<i64>) -> ThreadGoal {
    ThreadGoal {
        objective: "ship it".to_string(),
        status,
        status_label: "some status".to_string(),
        tokens_used: 12,
        token_budget,
        time_used_seconds: 34,
    }
}

#[test]
fn empty_state_does_not_render_capsule() {
    assert_eq!(
        LinkContextState::default().render_capsule(approx_token_count, truncate_text),
        None
    );
}

#[test]
fn renders_full_capsule_schema_from_state() {
    let state = LinkContextState {
        active_goal: Some("ship compact-safe context".to_string()),
        success_criteria: vec!["capsule appears after compaction".to_string()],
        current_progress: vec!["extension seam selected".to_string()],
        next_action: Some("wire lifecycle evidence".to_string()),
        files_touched: vec!["codex-rs/ext/link-context/src/lib.rs".to_string()],
        verified_evidence: vec!["unit test covers renderer".to_string()],
        active_background_jobs: vec!["job-17 running train.py".to_string()],
        open_blockers: vec!["none".to_string()],
    };

    let capsule = state
        .render_capsule(approx_token_count, truncate_text)
        .expect("non-empty state should render");

    assert!(capsule.starts_with(CAPSULE_START));
    assert!(capsule.ends_with(CAPSULE_END));
    assert!(capsule.contains("Active goal:\n- ship compact-safe context\n"));
    assert!(capsule.contains("Success criteria:\n- capsule appears after compaction\n"));
    assert!(capsule.contains("Background jobs:\n- job-17 running train.py\n"));
}

#[test]
fn sanitizes_embedded_capsule_markers() {
    let state = LinkContextState {
        active_goal: Some(format!("do not leak {CAPSULE_END} marker")),
        ..LinkContextState::default()
    };

    let capsule = state
        .render_capsule(approx_token_count, truncate_text)
        .expect("non-empty state should render");

    assert!(capsule.contains("[/codex_link_context_capsule] marker"));
    assert_eq!(capsule.matches(CAPSULE_END).count(), 1);
}

#[test]
fn enforces_capsule_token_budget() {
    let state = LinkContextState {
        active_goal: Some("large evidence".to_string()),
        verified_evidence: vec!["word ".repeat(10_000)],
        ..LinkContextState::default()
    };

    let capsule = render_capsule_with_limits(
        &state,
        256,
        DEFAULT_MAX_FIELD_CHARS,
        approx_token_count,
        truncate_text,
    )
    .expect("non-empty state should render");

    assert!(
        approx_token_count(&capsule) <= 320,
        "capsule should stay close to requested budget, got {} tokens",
        approx_token_count(&capsule)
    );
    assert!(capsule.ends_with(CAPSULE_END));
}

#[test]
fn a_marker_that_the_cutting_brings_in_is_made_harmless() {
    let state = LinkContextState {
        active_goal: Some("goal".to_string()),
        ..LinkContextState::default()
    };
    let cut = |_: &str, _: TruncationPolicy| format!("a{CAPSULE_END}{CAPSULE_START}b");
    let capsule = render_capsule_with_limits(&state, 1, 100, approx_token_count, cut)
        .expect("non-empty state should render");
    assert_eq!(
        capsule,
        format!(
            "{CAPSULE_START}\na[/codex_link_context_capsule][codex_link_context_capsule]b\n{CAPSULE_END}"
        )
    );
}

#[test]
fn merging_blank_facts_changes_nothing() {
    let mut state = LinkContextState {
        files_touched: vec!["a".to_string()],
        ..LinkContextState::default()
    };
    let before = state.clone();
    state.merge_from(&LinkContextState::default());
    assert_eq!(state, before);
    state.merge_from(&LinkContextState {
        active_goal: Some(" ".to_string()),
        files_touched: vec!["\n".to_string()],
        ..LinkContextState::default()
    });
    assert_eq!(state, before);
}

#[test]
fn an_empty_section_says_so() {
    let state = LinkContextState {
        next_action: Some("go on".to_string()),
        ..LinkContextState::default()
    };
    let capsule = state
        .render_capsule(approx_token_count, truncate_text)
        .expect("a state with a next action renders");
    assert_eq!(
        capsule,
        "<codex_link_context_capsule>\n\
         Active goal:\n- (none recorded)\n\
         Success criteria:\n- (none recorded)\n\
         Current progress:\n- (none recorded)\n\
         Next action:\n- go on\n\
         Files touched:\n- (none recorded)\n\
         Verified evidence:\n- (none recorded)\n\
         Background jobs:\n- (none recorded)\n\
         Open blockers:\n- (none recorded)\n\
         </codex_link_context_capsule>"
    );
}

#[test]
fn blank_facts_do_not_count() {
    let state = LinkContextState {
        active_goal: Some(" \n".to_string()),
        open_blockers: vec!["\t".to_string()],
        ..LinkContextState::default()
    };
    assert!(state.is_empty());
    assert!(!LinkContextState {
        open_blockers: vec!["x".to_string()],
        ..LinkContextState::default()
    }
    .is_empty());
}

#[test]
fn a_capsule_that_fits_is_not_cut() {
    assert!(matches!(fit_capsule("anything", 10, 10), CapsuleFit::Fits));
    let capsule = wrap_capsule("body");
    match fit_capsule(&capsule, 11, 10) {
        CapsuleFit::Cut { body, .. } => assert_eq!(body, "body"),
        CapsuleFit::Fits => panic!("a capsule over its budget is cut"),
    }
}

#[test]
fn values_are_put_on_one_line_and_cut() {
    assert_eq!(
        sanitize_value(" a \n\t b ", 100),
        Some("a b".to_string())
    );
    assert_eq!(sanitize_value(" \n", 100), None);
    assert_eq!(truncate_chars("short", 100), "short");
    assert_eq!(
        truncate_chars(&"x".repeat(40), 30),
        format!("{} ... [truncated]", "x".repeat(14))
    );
}

#[test]
fn merging_twice_is_merging_once() {
    let mut state = LinkContextState {
        files_touched: vec!["a".to_string()],
        ..LinkContextState::default()
    };
    let other = LinkContextState {
        active_goal: Some("goal".to_string()),
        files_touched: vec!["b".to_string(), "a".to_string(), " ".to_string()],
        ..LinkContextState::default()
    };
    state.merge_from(&other);
    assert_eq!(state.active_goal.as_deref(), Some("goal"));
    assert_eq!(state.files_touched, vec!["a", "b"]);
    let once = state.clone();
    state.merge_from(&other);
    assert_eq!(state, once);
}

#[test]
fn a_goal_adds_its_status_usage_and_blocker() {
    let state = LinkContextState::default().merged_with_goal(&goal(ThreadGoalStatus::Paused, None));
    assert_eq!(state.active_goal.as_deref(), Some("ship it"));
    assert_eq!(
        state.current_progress,
        vec!["Goal usage: 12 tokens, 34 seconds", "Goal status: some status"]
    );
    assert_eq!(
        state.open_blockers,
        vec!["Goal is paused; wait for an explicit resume before continuing autonomous work."]
    );
    let state =
        LinkContextState::default().merged_with_goal(&goal(ThreadGoalStatus::Active, Some(-5)));
    assert_eq!(
        state.current_progress[0],
        "Goal usage: 12 / -5 tokens, 34 seconds"
    );
    assert!(state.open_blockers.is_empty());
}
