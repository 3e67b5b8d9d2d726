use codex_link::context::{LinkContextState, ThreadGoal, ThreadGoalStatus};
use codex_link::exec_events::{
    ExecBackgroundTriggerEvent, ExecCommandBeginEvent, ExecCommandEndEvent, ExecCommandStatus,
};
use codex_link::file_changes::{
    file_change_paths, FileChange, FileChangeEntry, FileChangeItem, PatchApplyStatus,
};
use codex_link::persistence::PERSISTED_LINK_CONTEXT_VERSION;
use codex_link::record_tool::{RecordError, RecordKind, RecordLinkContextArgs};
use codex_link::store::{EventMsg, LinkContextStore, MAX_RECORDED_TOOL_EVENTS};
use codex_link::tool_finish::{
    format_tool_finish_event, format_tool_source, ToolCallOutcome, ToolCallSource, ToolFinishInput,
    ToolName,
};
use codex_link::trigger_events::MAX_BACKGROUND_EVENT_TAIL_CHARS;
use codex_link::truncation::TruncationPolicy;
use codex_link::turns::{
    background_event_steering_text, contribute_turn_context, StartOutcome, TurnEventInput,
};

fn approx_token_count(text: &str) -> usize {
    (text.len() + 3) / 4
}

fn truncate_text(text: &str, _policy: TruncationPolicy) -> String {
    text.to_string()
}

fn render(state: &LinkContextState) -> Option<String> {
    state.render_capsule(approx_token_count, truncate_text)
}

fn exec_command() -> ToolName {
    ToolName {
        namespace: None,
        name: "exec_command".to_string(),
        label: "exec_command".to_string(),
    }
}

fn finished(turn_id: &str, call_id: &str, output_preview: &str) -> ToolFinishInput {
    ToolFinishInput {
        turn_id: turn_id.to_string(),
        call_id: call_id.to_string(),
        tool_name: exec_command(),
        source: ToolCallSource::Direct,
        outcome: ToolCallOutcome::Completed { success: true },
        output_preview: Some(output_preview.to_string()),
    }
}

fn texts(values: &[&str]) -> Vec<String> {
    values.iter().map(|value| value.to_string()).collect()
}

fn on_turn_event(store: &mut LinkContextStore, event: EventMsg) -> bool {
    store.on_turn_event(&TurnEventInput {
        turn_id: "turn-1",
        event: &event,
    })
}

fn begin_event(description: &str, triggers: &[&str]) -> EventMsg {
    EventMsg::ExecCommandBegin(ExecCommandBeginEvent {
        process_id: Some("1234".to_string()),
        started_at_ms: 42,
        command: texts(&["python", "train.py"]),
        cwd: "file:///repo".to_string(),
        background_description: Some(description.to_string()),
        background_triggers: texts(triggers),
    })
}

fn end_event(command: &[&str], output: &str) -> EventMsg {
    EventMsg::ExecCommandEnd(ExecCommandEndEvent {
        process_id: Some("1234".to_string()),
        command: texts(command),
        cwd: "file:///repo".to_string(),
        aggregated_output: output.to_string(),
        exit_code: 0,
        status: ExecCommandStatus::Completed,
    })
}

fn trigger_event(
    command: &[&str],
    description: &str,
    trigger: &str,
    reason: &str,
    output_tail: &str,
) -> EventMsg {
    EventMsg::ExecBackgroundTrigger(ExecBackgroundTriggerEvent {
        call_id: "call-bg".to_string(),
        process_id: "1234".to_string(),
        turn_id: "turn-1".to_string(),
        triggered_at_ms: 42,
        command: texts(command),
        cwd: "file:///repo".to_string(),
        description: Some(description.to_string()),
        declared_triggers: texts(&[trigger]),
        trigger: trigger.to_string(),
        reason: reason.to_string(),
        output_tail: output_tail.to_string(),
    })
}

#[test]
fn contributes_turn_contextual_user_capsule_from_thread_state() {
    let thread_state = LinkContextState {
        next_action: Some("resume from compact boundary".to_string()),
        ..LinkContextState::default()
    };

    let state = contribute_turn_context(Some(thread_state), None, None, None);

    let fragment = render(&state).expect("the state renders");
    assert!(fragment.contains("resume from compact boundary"));
}

#[test]
fn records_tool_finish_as_verified_evidence() {
    let thread_state = LinkContextState {
        next_action: Some("run targeted test".to_string()),
        ..LinkContextState::default()
    };
    let mut store = LinkContextStore::default();
    store.record_tool_finish(&finished(
        "turn-1",
        "call-1",
        "ok: all targeted tests passed",
    ));

    let state = contribute_turn_context(Some(thread_state), Some(store.snapshot()), None, None);

    let capsule = render(&state).expect("the state renders");
    assert!(capsule.contains("Next action:\n- run targeted test\n"));
    assert!(capsule.contains("Verified evidence:\n- Tool exec_command completed successfully"));
    assert!(capsule.contains("(turn turn-1, call call-1)"));
    assert!(capsule.contains("Output preview: ok: all targeted tests passed"));
}

#[test]
fn caps_recorded_tool_evidence() {
    let mut store = LinkContextStore::default();
    for index in 0..(MAX_RECORDED_TOOL_EVENTS + 3) {
        let call_id = format!("call-{index:02}");
        store.record_tool_finish(&finished("turn-1", &call_id, "ok"));
    }

    let state = store.snapshot();

    assert_eq!(state.verified_evidence.len(), MAX_RECORDED_TOOL_EVENTS);
    assert!(!state
        .verified_evidence
        .iter()
        .any(|value| value.contains("call-00")));
    assert!(state
        .verified_evidence
        .iter()
        .any(|value| value.contains("call-18")));
}

fn patch(status: PatchApplyStatus) -> FileChangeItem {
    FileChangeItem {
        changes: vec![
            FileChangeEntry {
                path: "src/lib.rs".to_string(),
                change: FileChange::Update {
                    move_path: Some("src/link.rs".to_string()),
                },
            },
            FileChangeEntry {
                path: "README.md".to_string(),
                change: FileChange::Add,
            },
        ],
        status: Some(status),
    }
}

#[test]
fn records_completed_file_change_as_files_touched() {
    let mut store = LinkContextStore::default();
    store.record_file_change(&patch(PatchApplyStatus::Completed));

    let state = store.snapshot();

    assert_eq!(
        state.files_touched,
        vec![
            "README.md".to_string(),
            "src/lib.rs".to_string(),
            "src/link.rs".to_string()
        ]
    );
    assert_eq!(
        state.verified_evidence,
        vec!["Patch completed touched 3 file(s): README.md, src/lib.rs, src/link.rs"]
    );
}

#[test]
fn a_failed_patch_touches_no_files() {
    let mut store = LinkContextStore::default();
    store.record_file_change(&patch(PatchApplyStatus::Failed));
    let state = store.snapshot();
    assert!(state.files_touched.is_empty());
    assert_eq!(
        state.verified_evidence,
        vec!["Patch failed touched 3 file(s): README.md, src/lib.rs, src/link.rs"]
    );
}

#[test]
fn the_order_of_changes_does_not_matter() {
    let mut other = patch(PatchApplyStatus::Completed);
    other.changes.reverse();
    assert_eq!(
        file_change_paths(&other),
        file_change_paths(&patch(PatchApplyStatus::Completed))
    );
}

#[test]
fn records_native_exec_background_metadata_from_tool_output() {
    let mut store = LinkContextStore::default();
    store.record_tool_finish(&finished(
        "turn-1",
        "call-bg",
        "Chunk ID: abc123\n\
         Wall time: 1.0000 seconds\n\
         Background mode: true\n\
         Background description: train model until val_loss < 0.30\n\
         Background triggers: on_exit, metric_plateau=10\n\
         Background log: /tmp/codex-link/jobs/exec-1234.log\n\
         Process running with session ID 1234\n\
         Output:\nstarted",
    ));

    let state = store.snapshot();

    assert_eq!(
        state.active_background_jobs,
        vec![
            "exec session 1234 running: train model until val_loss < 0.30; log: /tmp/codex-link/jobs/exec-1234.log; triggers: on_exit, metric_plateau=10"
                .to_string()
        ]
    );
    assert!(state
        .verified_evidence
        .iter()
        .any(|value| value.contains("Native background exec started: exec session 1234")));
}

#[test]
fn ignores_background_fixture_text_from_command_output() {
    let mut store = LinkContextStore::default();
    store.record_tool_finish(&finished(
        "turn-1",
        "call-sed",
        "Chunk ID: abc123\n\
         Wall time: 0.0000 seconds\n\
         Process exited with code 0\n\
         Background mode: true\n\
         Background description: Auto-backgrounded if still running after the foreground wait\n\
         Background triggers: on_exit\n\
         Background log: /tmp/codex-link/jobs/exec-9999.log\n\
         Output:\n\
         output_preview: Some(\n\
             \"Background mode: true\\n\\\n\
              Background description: fake job\\n\\\n\
              Background triggers: on_exit\\n\\\n\
              Process running with session ID 1234\",\n\
         )",
    ));

    let state = store.snapshot();

    assert_eq!(state.active_background_jobs, Vec::<String>::new());
}

#[test]
fn records_native_exec_background_metadata_from_begin_event() {
    let mut store = LinkContextStore::default();
    on_turn_event(
        &mut store,
        begin_event(
            "train model until val_loss < 0.30",
            &["on_exit", "metric_plateau=10"],
        ),
    );

    let state = store.snapshot();

    assert_eq!(
        state.active_background_jobs,
        vec![
            "exec session 1234 running: train model until val_loss < 0.30; command: python train.py; cwd: file:///repo; triggers: on_exit, metric_plateau=10"
                .to_string()
        ]
    );
    assert!(state
        .verified_evidence
        .iter()
        .any(|value| value.contains("Native background exec registered: exec session 1234")));
}

#[test]
fn tool_finish_metadata_merges_with_begin_event_job() {
    let mut store = LinkContextStore::default();
    on_turn_event(&mut store, begin_event("train model", &["on_exit"]));
    store.record_tool_finish(&finished(
        "turn-1",
        "call-bg",
        "Chunk ID: abc123\n\
         Wall time: 1.0000 seconds\n\
         Background mode: true\n\
         Background description: train model\n\
         Background triggers: metric_threshold:val_loss<0.30\n\
         Process running with session ID 1234\n\
         Output:\nstarted",
    ));

    let state = store.snapshot();

    assert_eq!(
        state.active_background_jobs,
        vec![
            "exec session 1234 running: train model; command: python train.py; cwd: file:///repo; triggers: on_exit, metric_threshold:val_loss<0.30"
                .to_string()
        ]
    );
}

#[test]
fn exec_end_for_native_background_enqueues_one_callback_event() {
    let mut store = LinkContextStore::default();
    store.record_tool_finish(&finished(
        "turn-1",
        "call-bg",
        "Chunk ID: abc123\n\
         Wall time: 1.0000 seconds\n\
         Background mode: true\n\
         Background description: train model until val_loss < 0.30\n\
         Background log: /tmp/codex-link/jobs/exec-1234.log\n\
         Background triggers: on_exit\n\
         Process running with session ID 1234\n\
         Output:\nstarted",
    ));
    on_turn_event(
        &mut store,
        end_event(&["python", "train.py"], "epoch 10 val_loss=0.42"),
    );

    let state = store.snapshot();
    assert!(state.active_background_jobs.is_empty());
    assert!(state
        .verified_evidence
        .iter()
        .any(|value| value.contains("ended with exit_code=0")));

    let events = store.pop_pending_background_events();
    assert_eq!(events.len(), 1);
    let text = background_event_steering_text(&events);
    assert!(text.contains("<codex_link_background_event>"));
    assert!(text.contains("Trigger: on_exit"));
    assert!(text.contains("python train.py"));
    assert!(text.contains("Log: /tmp/codex-link/jobs/exec-1234.log"));
}

#[test]
fn background_trigger_event_enqueues_callback_without_prior_tool_finish() {
    let mut store = LinkContextStore::default();
    on_turn_event(
        &mut store,
        trigger_event(
            &["python", "train.py"],
            "train model until val_loss < 0.30",
            "regex:CUDA out of memory",
            "regex pattern matched process output",
            "RuntimeError: CUDA out of memory",
        ),
    );

    let state = store.snapshot();
    assert!(state
        .verified_evidence
        .iter()
        .any(|value| value.contains("fired trigger `regex:CUDA out of memory`")));

    let events = store.pop_pending_background_events();
    assert_eq!(events.len(), 1);
    let text = background_event_steering_text(&events);
    assert!(text.contains("Trigger: regex:CUDA out of memory"));
    assert!(text.contains("still running"));
    assert!(text.contains("RuntimeError: CUDA out of memory"));
}

fn threshold_event() -> EventMsg {
    trigger_event(
        &["python", "train.py"],
        "train model until val_loss < 0.30",
        "metric_threshold:val_loss < 0.30",
        "val_loss < 0.3 matched with observed 0.298",
        "epoch=42 val_loss=0.298",
    )
}

#[test]
fn duplicate_background_trigger_event_is_not_requeued_after_pop() {
    let mut store = LinkContextStore::default();
    for _ in 0..2 {
        on_turn_event(&mut store, threshold_event());
    }

    let events = store.pop_pending_background_events();
    assert_eq!(events.len(), 1);

    on_turn_event(&mut store, threshold_event());

    assert!(store.pop_pending_background_events().is_empty());
}

#[test]
fn background_exit_trigger_dedupes_exec_end_and_renders_terminal_status() {
    let mut store = LinkContextStore::default();
    store.record_tool_finish(&finished(
        "turn-1",
        "call-bg",
        "Chunk ID: abc123\n\
         Wall time: 1.0000 seconds\n\
         Background mode: true\n\
         Background description: smoke command\n\
         Background log: /tmp/codex-link/jobs/exec-1234.log\n\
         Background triggers: on_exit\n\
         Process running with session ID 1234\n\
         Output:\nstarted",
    ));
    on_turn_event(
        &mut store,
        trigger_event(
            &["sh", "-lc", "echo done"],
            "smoke command",
            "on_exit",
            "process exited with code 0",
            "done",
        ),
    );
    on_turn_event(&mut store, end_event(&["sh", "-lc", "echo done"], "done"));

    let events = store.pop_pending_background_events();
    assert_eq!(events.len(), 1);
    let text = background_event_steering_text(&events);
    assert_eq!(text.matches("<codex_link_background_event>").count(), 1);
    assert!(text.contains("Trigger: on_exit"));
    assert!(text.contains("Exit code: 0"));
    assert!(text.contains("Status: Completed"));
    assert!(text.contains("Log: /tmp/codex-link/jobs/exec-1234.log"));
    assert!(!text.contains("still running"));
}

#[test]
fn pending_background_trigger_event_gets_late_log_path_from_tool_finish() {
    let mut store = LinkContextStore::default();
    on_turn_event(
        &mut store,
        trigger_event(
            &["python", "train.py"],
            "train model",
            "metric_threshold:val_loss < 0.30",
            "val_loss < 0.30 matched",
            "epoch=2 val_loss=0.298",
        ),
    );
    store.record_tool_finish(&finished(
        "turn-1",
        "call-bg",
        "Chunk ID: abc123\n\
         Wall time: 1.0000 seconds\n\
         Background mode: true\n\
         Background description: train model\n\
         Background log: /tmp/codex-link/jobs/exec-1234.log\n\
         Background triggers: metric_threshold:val_loss < 0.30, on_exit\n\
         Process running with session ID 1234\n\
         Output:\nstarted",
    ));

    let events = store.pop_pending_background_events();
    assert_eq!(events.len(), 1);
    let text = background_event_steering_text(&events);
    assert!(text.contains("Trigger: metric_threshold:val_loss < 0.30"));
    assert!(text.contains("Log: /tmp/codex-link/jobs/exec-1234.log"));
    assert!(text.contains("Status: running"));
}

#[test]
fn background_trigger_callback_truncates_large_output_tail() {
    let long_tail = "x".repeat(MAX_BACKGROUND_EVENT_TAIL_CHARS + 128);
    let mut store = LinkContextStore::default();
    on_turn_event(
        &mut store,
        trigger_event(
            &["python", "train.py"],
            "train model until val_loss < 0.30",
            "regex:Traceback",
            "regex pattern matched process output",
            &long_tail,
        ),
    );

    let events = store.pop_pending_background_events();
    let text = background_event_steering_text(&events);

    assert!(text.contains("[truncated]"));
    assert!(text.len() < MAX_BACKGROUND_EVENT_TAIL_CHARS + 1_000);
}

#[test]
fn only_events_that_may_wait_ask_for_a_turn() {
    let mut store = LinkContextStore::default();
    assert!(!on_turn_event(&mut store, EventMsg::Other));
    assert!(!on_turn_event(&mut store, begin_event("train", &[])));
    assert!(on_turn_event(&mut store, threshold_event()));
    assert!(on_turn_event(&mut store, end_event(&["python"], "")));
}

#[test]
fn a_turn_that_does_not_start_keeps_its_events() {
    for outcome in [
        StartOutcome::NoThreadManager,
        StartOutcome::NoThread,
        StartOutcome::Rejected,
    ] {
        let mut store = LinkContextStore::default();
        on_turn_event(&mut store, threshold_event());
        let turn = store.take_pending_turn().expect("an event waits");
        let body = turn.body.clone();
        assert!(store.take_pending_turn().is_none());
        store.finish_pending_turn(turn, outcome);
        let again = store.take_pending_turn().expect("the event still waits");
        assert_eq!(again.body, body);
        store.finish_pending_turn(again, StartOutcome::Started);
        assert!(store.take_pending_turn().is_none());
    }
}

#[test]
fn an_update_changes_the_snapshot() {
    let mut store = LinkContextStore::default();
    store.update(|state| state.next_action = Some("write the test".to_string()));
    assert_eq!(
        store.snapshot().next_action.as_deref(),
        Some("write the test")
    );
}

#[test]
fn a_complete_goal_is_left_out() {
    let goal = |status| ThreadGoal {
        objective: "ship it".to_string(),
        status,
        status_label: "active".to_string(),
        tokens_used: 12,
        token_budget: None,
        time_used_seconds: 34,
    };
    let complete = contribute_turn_context(None, None, None, Some(goal(ThreadGoalStatus::Complete)));
    assert_eq!(render(&complete), None);
    let active = contribute_turn_context(None, None, None, Some(goal(ThreadGoalStatus::Active)));
    assert_eq!(active.active_goal.as_deref(), Some("ship it"));
}

#[test]
fn tool_outcomes_and_sources_are_named() {
    let mut input = finished("t", "c", " ");
    let named = [
        (
            ToolCallOutcome::Completed { success: false },
            "completed with a reported failure",
        ),
        (ToolCallOutcome::Blocked, "was blocked by host policy"),
        (
            ToolCallOutcome::Failed {
                handler_executed: true,
            },
            "failed after its handler started",
        ),
    ];
    for (outcome, words) in named {
        input.outcome = outcome;
        assert_eq!(
            format_tool_finish_event(&input),
            format!("Tool exec_command {words} (turn t, call c)")
        );
    }
    assert_eq!(format_tool_source(&ToolCallSource::Direct), "");
}

#[test]
fn only_a_telling_end_wakes_the_model() {
    let mut store = LinkContextStore::default();
    on_turn_event(&mut store, begin_event("train", &["regex:error"]));
    on_turn_event(&mut store, end_event(&["python"], "fine"));
    assert!(store.pop_pending_background_events().is_empty());
    assert!(store.snapshot().active_background_jobs.is_empty());

    on_turn_event(&mut store, begin_event("train", &["regex:error"]));
    on_turn_event(
        &mut store,
        EventMsg::ExecCommandEnd(ExecCommandEndEvent {
            process_id: Some("1234".to_string()),
            command: texts(&["python"]),
            cwd: "file:///repo".to_string(),
            aggregated_output: "Killed".to_string(),
            exit_code: 137,
            status: ExecCommandStatus::Failed,
        }),
    );
    let events = store.pop_pending_background_events();
    assert_eq!(events.len(), 1);
    assert_eq!(events[0].trigger, "failure_exit");
    assert_eq!(events[0].event_key, "exec:1234:exit:137");

    on_turn_event(&mut store, end_event(&["python"], "untracked"));
    assert!(store.pop_pending_background_events().is_empty());
}

#[test]
fn events_that_are_put_back_come_first() {
    let mut store = LinkContextStore::default();
    on_turn_event(&mut store, threshold_event());
    let taken = store.pop_pending_background_events();
    on_turn_event(
        &mut store,
        trigger_event(&["python"], "train", "regex:x", "matched", "tail"),
    );
    store.requeue_background_events_front(taken);
    let triggers: Vec<String> = store
        .pop_pending_background_events()
        .into_iter()
        .map(|event| event.trigger)
        .collect();
    assert_eq!(
        triggers,
        vec!["metric_threshold:val_loss < 0.30", "regex:x"]
    );
}

#[test]
fn a_merge_keeps_the_order_and_takes_facts_in_once() {
    let mut state = LinkContextState {
        open_blockers: texts(&["b", "a"]),
        ..LinkContextState::default()
    };
    let other = LinkContextState {
        open_blockers: texts(&["a", " ", "c"]),
        next_action: Some("go on".to_string()),
        ..LinkContextState::default()
    };
    state.merge_from(&other);
    state.merge_from(&other);
    assert_eq!(state.open_blockers, vec!["b", "a", "c"]);
    assert_eq!(state.next_action.as_deref(), Some("go on"));
}

fn decision(summary: &str) -> RecordLinkContextArgs {
    RecordLinkContextArgs {
        kind: RecordKind::Decision,
        summary: summary.to_string(),
        related_paths: Some(texts(&["a.rs"])),
    }
}

#[test]
fn a_recorded_fact_shows_in_the_capsule() {
    let mut store = LinkContextStore::default();
    assert!(render(&store.snapshot()).is_none());
    assert_eq!(
        store.record_fact(decision(" "), "t", "c-1", None),
        Err(RecordError::EmptySummary)
    );
    assert!(render(&store.snapshot()).is_none());
    assert_eq!(store.record_fact(decision("use A"), "t", "c-1", None), Ok(()));
    assert_eq!(store.record_fact(decision("use A"), "t", "c-2", Some(7)), Ok(()));
    let capsule = render(&store.snapshot()).expect("a fact is there");
    assert!(capsule.contains(
        "Verified evidence:\n- [decision, model, conf=medium] use A (turn t, call c-1) paths: a.rs\nBackground jobs:"
    ));
}

#[test]
fn a_recorded_fact_is_cut_only_where_the_capsule_cuts_it() {
    let mut store = LinkContextStore::default();
    let long = "x".repeat(1_100);
    store.record_fact(decision(&long), "t", "c-1", None).expect("a summary");
    let line = format!("[decision, model, conf=medium] {long} (turn t, call c-1) paths: a.rs");
    assert_eq!(store.snapshot().verified_evidence, vec![line.clone()]);
    assert!(render(&store.snapshot()).expect("a fact").contains(&line));
    store.record_fact(decision(&"y".repeat(1_300)), "t", "c-2", None).expect("a summary");
    let lines = store.snapshot().verified_evidence;
    assert!(lines[1].chars().filter(|c| *c == 'y').count() > 1_100);
    assert!(lines[1].chars().count() <= 1_200);
    store.record_fact(decision(&"y".repeat(1_300)), "t", "c-3", None).expect("a summary");
    assert_eq!(store.snapshot().verified_evidence, lines);
}

#[test]
fn a_store_survives_a_restart() {
    let mut store = LinkContextStore::default();
    store.record_fact(decision("use A"), "t", "c-1", None).expect("a summary");
    on_turn_event(&mut store, begin_event("train", &["on_exit"]));
    on_turn_event(
        &mut store,
        trigger_event(&["python"], "train", "regex:x", "matched", "tail"),
    );
    let before = store.snapshot();
    let written = store.persisted();
    assert_eq!(written.version, PERSISTED_LINK_CONTEXT_VERSION);
    assert_eq!(written.background_jobs.len(), 1);
    assert_eq!(written.background_event_keys.len(), 1);

    let mut restored = LinkContextStore::restored(written);
    assert_eq!(restored.snapshot(), before);
    assert_eq!(restored.record_fact(decision("use A"), "t", "c-2", None), Ok(()));
    assert_eq!(restored.snapshot(), before);
    assert_eq!(restored.pop_pending_background_events().len(), 1);
    on_turn_event(
        &mut restored,
        trigger_event(&["python"], "train", "regex:x", "matched", "tail"),
    );
    assert!(restored.pop_pending_background_events().is_empty());
}

#[test]
fn what_no_store_writes_is_left_out() {
    let mut store = LinkContextStore::default();
    store.record_fact(decision("use A"), "t", "c-1", None).expect("a summary");
    on_turn_event(&mut store, begin_event("train", &["on_exit"]));
    on_turn_event(
        &mut store,
        trigger_event(&["python"], "train", "regex:x", "matched", "tail"),
    );
    let before = store.snapshot();

    let mut written = store.persisted();
    written.background_jobs.extend(store.persisted().background_jobs);
    written.background_jobs[1].description = "later".to_string();
    written
        .pending_background_events
        .extend(store.persisted().pending_background_events);
    written.background_event_keys = texts(&["k", "l", "k"]);
    let mut restored = LinkContextStore::restored(written);
    assert_eq!(restored.snapshot(), before);
    assert_eq!(restored.persisted().background_jobs, store.persisted().background_jobs);
    assert_eq!(restored.persisted().background_event_keys, texts(&["k", "l"]));
    assert_eq!(restored.pop_pending_background_events().len(), 1);

    let mut many = store.persisted();
    many.background_event_keys = (0..130).map(|i| i.to_string()).collect();
    let event = store.persisted().pending_background_events.remove(0);
    many.pending_background_events = (0..18)
        .map(|i| {
            let mut event = event.clone();
            event.event_key = i.to_string();
            event
        })
        .collect();
    let mut bounded = LinkContextStore::restored(many);
    let kept = bounded.persisted().background_event_keys;
    assert_eq!(kept.len(), 128);
    assert_eq!((kept[0].as_str(), kept[127].as_str()), ("2", "129"));
    let events = bounded.persisted().pending_background_events;
    assert_eq!(events.len(), 16);
    assert_eq!(events[0].event_key, "2");
    assert_eq!(bounded.pop_pending_background_events()[0].event_key, "2");
    assert_eq!(bounded.snapshot(), before);
}
