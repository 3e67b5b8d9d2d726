use codex_link::gc::{
    gc_flat_dir, gc_stale_files, gc_thread_entry, sidecar_cutoff, SidecarFile, ThreadEntry,
    ThreadSweep,
};
use codex_link::output_spill::{
    after_archive, after_truncation, append_pointer, reserve_pointer_budget, sanitize_call_id,
    spill_file_components, spill_pointer_line, OutputBody, OutputItem, OutputPayload, PointerStep,
    SpillStep, MIN_SPILL_BYTE_BUDGET,
};
use codex_link::persistence::link_context_file_components;
use codex_link::truncation::TruncationPolicy;

#[test]
fn spills_content_under_thread_scoped_path() {
    assert_eq!(
        spill_file_components("thread-1", "call-1"),
        vec!["link", "tool-output", "thread-1", "call-1.txt"]
    );
}

#[test]
fn sanitizes_hostile_call_ids() {
    assert_eq!(sanitize_call_id("../../etc/passwd"), ".._.._etc_passwd");
    assert_eq!(sanitize_call_id("call/1:2"), "call_1_2");
    assert_eq!(sanitize_call_id("..."), "call");
    assert_eq!(sanitize_call_id("call-1_a.B"), "call-1_a.B");
}

#[test]
fn call_ids_are_cut_and_never_empty() {
    assert_eq!(sanitize_call_id(""), "call");
    assert_eq!(sanitize_call_id("é"), "call");
    assert_eq!(sanitize_call_id(&"a".repeat(200)), "a".repeat(128));
    let late = format!("{}a", "_".repeat(128));
    assert_eq!(sanitize_call_id(&late), "call");
}

#[test]
fn the_context_file_is_named_after_the_thread() {
    assert_eq!(
        link_context_file_components("t-9"),
        vec!["link", "context", "t-9.json"]
    );
}

#[test]
fn the_pointer_takes_its_cost_from_the_budget() {
    assert_eq!(
        reserve_pointer_budget(TruncationPolicy::Bytes(100), "é!", 0),
        TruncationPolicy::Bytes(96)
    );
    assert_eq!(
        reserve_pointer_budget(TruncationPolicy::Bytes(3), "é!", 0),
        TruncationPolicy::Bytes(1)
    );
    assert_eq!(
        reserve_pointer_budget(TruncationPolicy::Tokens(100), "é!", 40),
        TruncationPolicy::Tokens(59)
    );
    assert_eq!(
        reserve_pointer_budget(TruncationPolicy::Tokens(3), "é!", 40),
        TruncationPolicy::Tokens(1)
    );
}

fn text(text: &str) -> OutputPayload {
    OutputPayload {
        body: OutputBody::Text(text.to_string()),
        success: Some(true),
    }
}

fn is_archived(payload: &OutputPayload, truncated: &OutputPayload, has: bool, budget: usize) -> bool {
    matches!(
        after_truncation(payload, truncated, has, budget, Some("full".to_string())),
        SpillStep::Archive { text } if text == "full"
    )
}

#[test]
fn only_what_was_cut_is_archived() {
    let budget = MIN_SPILL_BYTE_BUDGET;
    assert!(is_archived(&text("abc"), &text("a"), true, budget));
    assert!(!is_archived(&text("abc"), &text("abc"), true, budget));
    assert!(!is_archived(&text("abc"), &text("a"), false, budget));
    assert!(!is_archived(&text("abc"), &text("a"), true, budget - 1));
    assert!(matches!(
        after_truncation(&text("abc"), &text("a"), true, budget, None),
        SpillStep::Finish
    ));
    let items = |last: &str| OutputPayload {
        body: OutputBody::ContentItems(vec![
            OutputItem::Opaque {
                content: "image".to_string(),
            },
            OutputItem::InputText {
                text: last.to_string(),
            },
        ]),
        success: None,
    };
    assert!(!is_archived(&items("a"), &items("a"), true, budget));
    assert!(is_archived(&items("abc"), &items("a"), true, budget));
}

#[test]
fn the_copy_points_at_the_archive() {
    let line = spill_pointer_line("/x/call-1.txt", "re-running the command");
    assert_eq!(
        line,
        "Full untruncated output saved to: /x/call-1.txt — if a detail from the truncated middle matters, search that file with rg/grep or tail it instead of re-running the command."
    );
    let count_tokens = |text: &str| text.len() / 4;
    match after_archive(
        &Some("/x/call-1.txt".to_string()),
        TruncationPolicy::Tokens(1_000),
        "re-running the command",
        &count_tokens,
    ) {
        PointerStep::Reduce {
            policy,
            pointer_line,
        } => {
            assert_eq!(pointer_line, line);
            assert_eq!(
                policy,
                TruncationPolicy::Tokens(1_000 - line.len() / 4 - 1)
            );
        }
        PointerStep::Finish => panic!("the archive was written"),
    }
    assert!(matches!(
        after_archive(&None, TruncationPolicy::Tokens(9), "x", &count_tokens),
        PointerStep::Finish
    ));
    match append_pointer(text("head"), "line".to_string()).body {
        OutputBody::Text(text) => assert_eq!(text, "head\nline"),
        OutputBody::ContentItems(_) => panic!("a text stays a text"),
    }
    let items = OutputPayload {
        body: OutputBody::ContentItems(Vec::new()),
        success: None,
    };
    match append_pointer(items, "line".to_string()).body {
        OutputBody::ContentItems(items) => {
            assert_eq!(items.len(), 1);
            assert!(matches!(&items[0], OutputItem::InputText { text } if text == "line"));
        }
        OutputBody::Text(_) => panic!("items stay items"),
    }
}

const SECOND: i128 = 1_000_000_000;

fn file(name: &str, modified: i128) -> SidecarFile {
    SidecarFile {
        name: name.to_string(),
        modified: Some(modified),
    }
}

fn directory(name: &str, files: Vec<SidecarFile>) -> ThreadEntry {
    ThreadEntry {
        name: name.to_string(),
        modified: Some(0),
        files: Some(files),
    }
}

#[test]
fn sweeps_stale_files_but_keeps_current_thread() {
    let now = 100 * SECOND;
    let cutoff = sidecar_cutoff(now, 0).expect("a cutoff");

    let context = vec![
        file("thread-old.json", now - 1),
        file("thread-current.json", now - 1),
    ];
    assert_eq!(gc_flat_dir(&context, "thread-current", cutoff), vec![0]);

    let old_outputs = directory("thread-old", vec![file("call-1.txt", now - 1)]);
    assert_eq!(
        gc_thread_entry(&old_outputs, "thread-current", cutoff),
        ThreadSweep::Sweep(vec![0])
    );

    let current_jobs = directory("thread-current", vec![file("exec-1.log", now - 1)]);
    assert_eq!(
        gc_thread_entry(&current_jobs, "thread-current", cutoff),
        ThreadSweep::Keep
    );
}

#[test]
fn a_thread_whose_id_begins_another_keeps_only_its_own_files() {
    let context = vec![
        file("thread-10.json", 1),
        file("thread-1.json", 1),
        file("thread-1.json.tmp", 1),
        file("thread-1", 1),
    ];
    assert_eq!(gc_flat_dir(&context, "thread-1", 2), vec![0, 3]);
}

#[test]
fn keeps_fresh_files() {
    let now = 100 * SECOND;
    let cutoff = sidecar_cutoff(now, 60).expect("a cutoff");
    assert_eq!(cutoff, 40 * SECOND);

    let context = vec![file("thread-other.json", now)];
    assert!(gc_flat_dir(&context, "thread-current", cutoff).is_empty());
}

#[test]
fn missing_link_dir_is_a_no_op() {
    assert!(gc_flat_dir(&Vec::new(), "thread-current", 0).is_empty());
    assert!(gc_stale_files(&Vec::new(), 0).is_empty());
}

#[test]
fn a_file_of_unknown_age_stays() {
    let unknown = SidecarFile {
        name: "x.txt".to_string(),
        modified: None,
    };
    assert!(gc_stale_files(&vec![unknown], i128::MAX).is_empty());
    let stray = ThreadEntry {
        name: "stray".to_string(),
        modified: Some(3),
        files: None,
    };
    assert_eq!(gc_thread_entry(&stray, "t", 4), ThreadSweep::RemoveFile);
    assert_eq!(gc_thread_entry(&stray, "t", 2), ThreadSweep::Keep);
    assert_eq!(sidecar_cutoff(i128::MIN, 1), None);
}
