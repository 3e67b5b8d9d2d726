use codex_link::clock::{millis_to_i64, now_ms};
use codex_link::context::LinkContextState;
use codex_link::evidence::{
    push_evidence, EvidenceConfidence, EvidenceKind, EvidenceRecord, EvidenceSource,
};
use codex_link::job_tools::{create_job_cancel_tool, create_job_observe_tool};
use codex_link::record_tool::{
    create_record_link_context_tool, record_link_context, RecordError, RecordKind,
    RecordLinkContextArgs,
};
use codex_link::tool_schema::ArgumentType;

#[test]
fn records_are_rendered_with_their_provenance() {
    let observed = EvidenceRecord::host(EvidenceKind::FileChange, "patch landed".to_string());
    assert_eq!(observed.source, EvidenceSource::HostObserved);
    assert_eq!(observed.render(), "[file, host] patch landed");
    let reported = EvidenceRecord::model(EvidenceKind::Decision, "use a map".to_string())
        .with_source_ref("turn 1, call 2".to_string())
        .with_related_paths(vec!["a.rs".to_string(), "b.rs".to_string()]);
    assert_eq!(
        reported.render(),
        "[decision, model, conf=medium] use a map (turn 1, call 2) paths: a.rs, b.rs"
    );
    let mut doubtful = reported.with_confidence(EvidenceConfidence::Low);
    doubtful.stale = true;
    assert!(doubtful
        .render()
        .starts_with("[decision, model, conf=low, stale] use a map"));
    assert_eq!(EvidenceConfidence::default(), EvidenceConfidence::Medium);
}

#[test]
fn a_fact_is_pushed_once_and_the_oldest_leave() {
    let record = |summary: &str| {
        EvidenceRecord::host_at(EvidenceKind::Observation, summary.to_string(), Some(1))
    };
    let mut records = Vec::new();
    push_evidence(&mut records, record(" \n"), 2);
    assert!(records.is_empty());
    push_evidence(&mut records, record("a"), 2);
    push_evidence(&mut records, record("a"), 2);
    assert_eq!(records.len(), 1);
    push_evidence(&mut records, record("b"), 2);
    push_evidence(&mut records, record("c"), 2);
    let summaries: Vec<&str> = records.iter().map(|record| record.summary.as_str()).collect();
    assert_eq!(summaries, vec!["b", "c"]);
}

#[test]
fn the_clock_counts_from_the_epoch() {
    let now = now_ms().expect("the clock is past the epoch");
    assert!(now > 1_600_000_000_000);
    assert_eq!(millis_to_i64(7), Some(7));
    assert_eq!(millis_to_i64(1 << 64), None);
    let record = EvidenceRecord::model(EvidenceKind::Blocker, "x".to_string());
    assert!(record.created_at_ms.expect("a time") >= now);
}

fn args(kind: RecordKind, summary: &str) -> RecordLinkContextArgs {
    RecordLinkContextArgs {
        kind,
        summary: summary.to_string(),
        related_paths: None,
    }
}

#[test]
fn recording_updates_the_capsule() {
    let mut state = LinkContextState::default();
    let mut records = Vec::new();
    let mut record = |args| {
        record_link_context(&mut state, &mut records, args, "t", "c", Some(5))
    };
    assert_eq!(record(args(RecordKind::PlanUpdate, " go on ")), Ok(()));
    assert_eq!(record(args(RecordKind::Blocker, "no disk")), Ok(()));
    assert_eq!(record(args(RecordKind::Blocker, "no disk")), Ok(()));
    assert_eq!(record(args(RecordKind::Decision, "keep it")), Ok(()));
    assert_eq!(
        record(args(RecordKind::TestResult, " \t")),
        Err(RecordError::EmptySummary)
    );
    assert_eq!(state.next_action.as_deref(), Some("go on"));
    assert_eq!(state.open_blockers, vec!["no disk"]);
    let rendered: Vec<String> = records.iter().map(EvidenceRecord::render).collect();
    assert_eq!(
        rendered,
        vec![
            "[plan, model, conf=medium] go on (turn t, call c)",
            "[blocker, model, conf=medium] no disk (turn t, call c)",
            "[decision, model, conf=medium] keep it (turn t, call c)",
        ]
    );
    assert_eq!(state.verified_evidence, rendered);
    assert_eq!(
        RecordError::EmptySummary.message(),
        "summary must not be empty"
    );
}

#[test]
fn recording_the_same_summary_again_changes_nothing() {
    let mut state = LinkContextState::default();
    let mut records = Vec::new();
    for call_id in ["c-1", "c-2"] {
        let done = record_link_context(
            &mut state,
            &mut records,
            args(RecordKind::Observation, "the build is green"),
            "t",
            call_id,
            Some(5),
        );
        assert_eq!(done, Ok(()));
    }
    assert_eq!(records.len(), 1);
    assert_eq!(records[0].source_ref.as_deref(), Some("turn t, call c-1"));
    assert_eq!(
        state.verified_evidence,
        vec!["[observation, model, conf=medium] the build is green (turn t, call c-1)"]
    );
}

#[test]
fn a_fact_that_the_host_knows_is_not_recorded_again() {
    let known = EvidenceRecord::host_at(EvidenceKind::Decision, "use A".to_string(), None);
    let mut state = LinkContextState {
        verified_evidence: vec![known.render()],
        ..LinkContextState::default()
    };
    let mut records = vec![known];
    let mut record = |call_id| {
        let args = args(RecordKind::Decision, "use A");
        record_link_context(&mut state, &mut records, args, "t", call_id, None)
    };
    assert_eq!(record("c-1"), Ok(()));
    assert_eq!(record("c-2"), Ok(()));
    assert_eq!(records.len(), 1);
    assert_eq!(state.verified_evidence, vec!["[decision, host] use A"]);
}

#[test]
fn a_fact_that_is_no_longer_shown_is_recorded_anew() {
    let mut state = LinkContextState::default();
    let mut records = Vec::new();
    for call_id in ["c-1", "c-2"] {
        let args = args(RecordKind::Decision, "use A");
        record_link_context(&mut state, &mut records, args, "t", call_id, None)
            .expect("a summary");
        if call_id == "c-1" {
            state.verified_evidence = (0..16).map(|i| format!("event {i}")).collect();
        }
    }
    assert_eq!(records.len(), 1);
    assert_eq!(state.verified_evidence.len(), 16);
    assert_eq!(
        state.verified_evidence[15],
        "[decision, model, conf=medium] use A (turn t, call c-2)"
    );
}

#[test]
fn tools_take_the_arguments_they_name() {
    let record = create_record_link_context_tool();
    assert_eq!(record.name, "record_link_context");
    assert_eq!(record.required, vec!["kind", "summary"]);
    assert_eq!(
        record.arguments[0].argument_type,
        ArgumentType::TextEnum(vec![
            "decision".to_string(),
            "observation".to_string(),
            "test_result".to_string(),
            "plan_update".to_string(),
            "blocker".to_string(),
        ])
    );
    let observe = create_job_observe_tool();
    let names: Vec<&str> = observe
        .arguments
        .iter()
        .map(|argument| argument.name.as_str())
        .collect();
    assert_eq!(
        names,
        vec![
            "action",
            "limit_bytes",
            "offset_bytes",
            "session_id",
            "tail_lines",
            "timeout_ms"
        ]
    );
    assert_eq!(observe.required, vec!["action"]);
    assert_eq!(create_job_cancel_tool().required, vec!["session_id"]);
}
