use codex_link::job_observe::{
    format_elapsed, missing_log_message, read_log_range, read_log_tail, render_list, render_read,
    render_snapshot_line, render_status, render_tail, render_wait, truncate_command,
    JobCancelHandler, JobObserveAction, JobObserveArgs, JobObserveHandler, ListedJob, ObservePlan,
    RECENT_COMPLETED_IN_LIST, TAIL_SCAN_BYTES,
};
use codex_link::observation::{
    sort_snapshots, wait_step, CompletedJobs, JobSnapshot, JobWaitOutcome, WaitEvent, WaitStep,
};

fn completed_snapshot(process_id: i32, exit_code: Option<i32>) -> JobSnapshot {
    JobSnapshot {
        process_id,
        command: format!("echo job-{process_id}"),
        cwd: "file:///tmp".to_string(),
        background_description: None,
        background_triggers: Vec::new(),
        running: false,
        exit_code,
        started_at_unix_ms: 0,
    }
}

#[test]
fn archive_answers_status_and_wait_for_reaped_jobs() {
    let mut jobs = CompletedJobs::new();
    jobs.archive_completed(completed_snapshot(1000, Some(0)));

    let job = jobs.completed_job(1000).expect("archived job");
    assert_eq!(job.exit_code, Some(0));
    assert!(!job.running);

    let outcome = jobs.begin_wait(1000, None);
    assert_eq!(
        outcome,
        WaitStep::Done(JobWaitOutcome::Exited { exit_code: Some(0) })
    );

    let unknown = jobs.begin_wait(9999, None);
    assert_eq!(unknown, WaitStep::Done(JobWaitOutcome::Unknown));
}

#[test]
fn archive_dedups_by_process_id_and_stays_bounded() {
    let mut jobs = CompletedJobs::new();
    jobs.archive_completed(completed_snapshot(1000, Some(1)));
    jobs.archive_completed(completed_snapshot(1000, Some(0)));
    assert_eq!(
        jobs.completed_job(1000).expect("archived job").exit_code,
        Some(0),
        "re-archiving the same id should keep the latest record only"
    );

    for process_id in 0..200 {
        jobs.archive_completed(completed_snapshot(process_id, Some(0)));
    }
    assert!(
        jobs.completed_job(0).is_none(),
        "oldest records should be evicted past the cap"
    );
    let recent = jobs.recent_completed_jobs(3);
    let ids: Vec<i32> = recent.iter().map(|job| job.process_id).collect();
    assert_eq!(ids, vec![199, 198, 197], "most recent first");
}

#[test]
fn an_entry_that_leaves_the_live_store_is_not_running() {
    let mut jobs = CompletedJobs::new();
    let mut snapshot = completed_snapshot(7, None);
    snapshot.running = true;
    jobs.archive_completed_entry(snapshot);
    assert!(!jobs.completed_job(7).expect("archived job").running);
}

#[test]
fn a_wait_ends_with_what_came_first() {
    let jobs = CompletedJobs::new();
    assert_eq!(jobs.begin_wait(1, Some(false)), WaitStep::Await);
    assert_eq!(jobs.begin_wait(1, Some(true)), WaitStep::ReadExitCode);
    assert_eq!(wait_step(WaitEvent::ProcessExited), WaitStep::ReadExitCode);
    assert_eq!(
        wait_step(WaitEvent::ExitCode {
            code: None,
            paused: false
        }),
        WaitStep::PauseThenReadExitCode
    );
    assert_eq!(
        wait_step(WaitEvent::ExitCode {
            code: None,
            paused: true
        }),
        WaitStep::Done(JobWaitOutcome::Exited { exit_code: None })
    );
    assert_eq!(
        wait_step(WaitEvent::Interrupted),
        WaitStep::Done(JobWaitOutcome::Interrupted)
    );
    assert_eq!(
        wait_step(WaitEvent::TimedOut),
        WaitStep::Done(JobWaitOutcome::TimedOut)
    );
}

#[test]
fn sessions_are_listed_by_id() {
    let snapshots = vec![
        completed_snapshot(3, None),
        completed_snapshot(1, None),
        completed_snapshot(2, None),
    ];
    let ids: Vec<i32> = sort_snapshots(&snapshots)
        .iter()
        .map(|job| job.process_id)
        .collect();
    assert_eq!(ids, vec![1, 2, 3]);
}

#[test]
fn tail_returns_last_lines_and_total_size() {
    let content: String = (1..=100).map(|i| format!("line {i}\n")).collect();

    let (tail, total) = read_log_tail(content.as_bytes(), 3);
    assert_eq!(tail, "line 98\nline 99\nline 100");
    assert_eq!(total, content.len() as u64);
}

#[test]
fn read_range_is_bounded_and_reports_total() {
    let contents = "0123456789".as_bytes();

    let (chunk, total) = read_log_range(contents, 2, 4);
    assert_eq!(chunk, "2345");
    assert_eq!(total, 10);

    let (past_end, _) = read_log_range(contents, 50, 4);
    assert_eq!(past_end, "");
}

#[test]
fn long_commands_are_truncated_for_display() {
    let long = "x".repeat(500);
    let rendered = truncate_command(&long);
    assert_eq!(rendered.chars().count(), 121);
    assert!(rendered.ends_with('…'));
    assert_eq!(truncate_command("short"), "short");
}

#[test]
fn bytes_that_are_no_text_are_replaced() {
    assert_eq!(read_log_range(b"a\xffb", 0, 9).0, "a\u{fffd}b");
}

#[test]
fn a_tail_scans_the_end_of_a_long_log_alone() {
    let mut contents = vec![b'x'; 3];
    contents.extend(vec![b'y'; TAIL_SCAN_BYTES as usize]);
    let (tail, total) = read_log_tail(&contents, 1);
    assert_eq!(tail.len() as u64, TAIL_SCAN_BYTES);
    assert!(!tail.contains('x'));
    assert_eq!(total, TAIL_SCAN_BYTES + 3);
}

#[test]
fn elapsed_time_is_shown_in_one_unit() {
    for (elapsed, shown) in [
        (-5, "0s"),
        (119_999, "119s"),
        (120_000, "2m"),
        (7_199_999, "119m"),
        (7_200_000, "2h"),
    ] {
        assert_eq!(format_elapsed(elapsed), shown);
    }
}

fn args(action: JobObserveAction, session_id: Option<i32>) -> JobObserveArgs {
    JobObserveArgs {
        action,
        session_id,
        timeout_ms: None,
        tail_lines: None,
        offset_bytes: None,
        limit_bytes: None,
    }
}

#[test]
fn arguments_are_kept_within_bounds() {
    let handler = JobObserveHandler;
    assert_eq!(
        handler.plan(args(JobObserveAction::List, None)),
        Ok(ObservePlan::List {
            recent_completed: RECENT_COMPLETED_IN_LIST
        })
    );
    assert_eq!(
        handler.plan(args(JobObserveAction::Tail, None)),
        Err("session_id is required for this action")
    );
    assert_eq!(
        handler.plan(args(JobObserveAction::Wait, Some(4))),
        Ok(ObservePlan::Wait {
            session_id: 4,
            timeout_ms: 30_000
        })
    );
    assert_eq!(
        handler.plan(JobObserveArgs {
            timeout_ms: Some(1),
            ..args(JobObserveAction::Wait, Some(4))
        }),
        Ok(ObservePlan::Wait {
            session_id: 4,
            timeout_ms: 1_000
        })
    );
    assert_eq!(
        handler.plan(JobObserveArgs {
            tail_lines: Some(4_000),
            ..args(JobObserveAction::Tail, Some(4))
        }),
        Ok(ObservePlan::Tail {
            session_id: 4,
            lines: 400
        })
    );
    assert_eq!(
        handler.plan(JobObserveArgs {
            limit_bytes: Some(0),
            offset_bytes: Some(9),
            ..args(JobObserveAction::Read, Some(4))
        }),
        Ok(ObservePlan::Read {
            session_id: 4,
            offset: 9,
            limit: 1
        })
    );
    assert_eq!(
        handler.plan(args(JobObserveAction::Status, Some(-4))),
        Ok(ObservePlan::Status { session_id: -4 })
    );
    assert_eq!(handler.tool_name(), "job_observe");
    assert_eq!(JobCancelHandler.tool_name(), "job_cancel");
}

fn running_snapshot() -> JobSnapshot {
    JobSnapshot {
        process_id: 12,
        command: "make".to_string(),
        cwd: "/repo".to_string(),
        background_description: Some("build".to_string()),
        background_triggers: vec!["on_exit".to_string(), "regex:error".to_string()],
        running: true,
        exit_code: None,
        started_at_unix_ms: 1_000,
    }
}

#[test]
fn a_job_is_shown_on_one_line() {
    assert_eq!(
        render_snapshot_line(&running_snapshot(), "/log", 61_000),
        "- session_id 12: running | make (cwd: /repo) | started 60s ago | build | triggers: on_exit, regex:error | log: /log"
    );
    assert_eq!(
        render_snapshot_line(&completed_snapshot(3, Some(-9)), "/log", 0),
        "- session_id 3: exited (-9) | echo job-3 (cwd: file:///tmp) | log: /log"
    );
    assert!(render_snapshot_line(&completed_snapshot(3, None), "/log", 0)
        .starts_with("- session_id 3: exited | "));
}

#[test]
fn lists_name_live_and_completed_sessions() {
    assert_eq!(
        render_list(&Vec::new(), &Vec::new(), 0),
        "No live exec sessions. Finished sessions leave durable logs; use `status`, `tail`, or `read` with a session_id to inspect one."
    );
    let live = vec![ListedJob {
        snapshot: running_snapshot(),
        log_path: "/a".to_string(),
    }];
    let completed = vec![ListedJob {
        snapshot: completed_snapshot(3, Some(0)),
        log_path: "/b".to_string(),
    }];
    assert_eq!(
        render_list(&live, &completed, 1_000),
        "1 live session(s):\n\
         - session_id 12: running | make (cwd: /repo) | started 0s ago | build | triggers: on_exit, regex:error | log: /a\n\
         Recently completed:\n\
         - session_id 3: exited (0) | echo job-3 (cwd: file:///tmp) | log: /b"
    );
}

#[test]
fn a_status_tells_the_size_of_the_log() {
    let live = Some(running_snapshot());
    let status = render_status(&live, &None, 12, "/a", Some(77), true, 1_000);
    assert!(status.ends_with(" | log: /a (77 bytes)"));
    let status = render_status(&None, &live, 12, "/a", None, false, 1_000);
    assert!(status.ends_with(" | log: /a (not created yet)"));
    assert_eq!(
        render_status(&None, &None, 12, "/a", None, false, 0),
        "no session 12 in this thread: nothing is tracked under that id and no log file exists at /a."
    );
    assert_eq!(
        missing_log_message(12, "/a", true),
        "session 12 is not tracked anymore (it already exited or was cancelled); its exit was reported as a job event. Its durable log remains: /a — use `tail` or `read` to inspect it."
    );
}

#[test]
fn reads_and_waits_tell_what_they_saw() {
    assert_eq!(
        render_read(1, 3, "/a", true, &Some(("é!".to_string(), 10))),
        "log: /a, bytes 3..6 of 10:\né!"
    );
    assert_eq!(
        render_tail(1, 2, "/a", true, &Some(("x\ny".to_string(), 10))),
        "log: /a (10 bytes total), last 2 lines:\nx\ny"
    );
    assert_eq!(
        render_tail(1, 2, "/a", false, &None),
        missing_log_message(1, "/a", false)
    );
    let tail = Some("done".to_string());
    assert_eq!(
        render_wait(
            JobWaitOutcome::Exited { exit_code: Some(3) },
            1,
            5,
            "/a",
            true,
            &tail
        ),
        "session 1 exited with code 3.\nRecent output (/a):\ndone"
    );
    assert_eq!(
        render_wait(
            JobWaitOutcome::Exited { exit_code: None },
            1,
            5,
            "/a",
            true,
            &None
        ),
        "session 1 exited with code unknown."
    );
    assert_eq!(
        render_wait(JobWaitOutcome::TimedOut, 1, 5, "/a", true, &None),
        "session 1 is still running after 5 ms; wait again or tail its log."
    );
    assert_eq!(
        render_wait(JobWaitOutcome::Interrupted, 1, 5, "/a", true, &tail),
        "wait for session 1 was interrupted."
    );
    assert_eq!(
        render_wait(JobWaitOutcome::Unknown, 1, 5, "/a", false, &tail),
        missing_log_message(1, "/a", false)
    );
}

#[test]
fn a_cancel_says_whether_there_was_a_session() {
    assert_eq!(
        JobCancelHandler.render(5, true, "/a"),
        "terminated session 5. Its log file is kept: /a"
    );
    assert_eq!(
        JobCancelHandler.render(5, false, "/a"),
        "no live session 5 to terminate (it may have already exited)."
    );
}
