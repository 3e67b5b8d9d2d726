use codex_link::exit_report::{
    bounded_tail, exit_report, failed_exec_end_output, report_exit, ProcessEnd,
};
use codex_link::numbers::{DurationUnit, Number, NumberEntry, NumberRequest, TimeSpan};
use codex_link::output_stream::{
    background_trigger_events, watched_command, BackgroundEventNotifier,
    BackgroundTriggerWatchConfig, OutputStream, StreamEvent, StreamStep, TRAILING_OUTPUT_GRACE,
};
use codex_link::trigger_declared::BackgroundTriggerPolicy;
use codex_link::trigger_eval::{BackgroundTriggerFired, Observation};
use codex_link::utf8_stream::{
    split_valid_utf8_prefix, split_valid_utf8_prefix_with_max, UNIFIED_EXEC_OUTPUT_DELTA_MAX_BYTES,
};

fn policy() -> BackgroundTriggerPolicy {
    match BackgroundTriggerPolicy::parse_with_numbers(
        &vec!["regex:boom".to_string()],
        &Vec::new(),
    ) {
        Ok(Some(policy)) => policy,
        _ => panic!("the trigger should parse"),
    }
}

fn read(_text: &str, _operand: u64) -> Option<Observation> {
    None
}

#[test]
fn text_is_cut_between_characters() {
    let mut buffer = "aé€".as_bytes().to_vec();
    assert_eq!(
        split_valid_utf8_prefix_with_max(&mut buffer, 2).as_deref(),
        Some("a".as_bytes())
    );
    assert_eq!(
        split_valid_utf8_prefix_with_max(&mut buffer, 4).as_deref(),
        Some("é".as_bytes())
    );
    assert_eq!(
        split_valid_utf8_prefix_with_max(&mut buffer, 4).as_deref(),
        Some("€".as_bytes())
    );
    assert_eq!(split_valid_utf8_prefix_with_max(&mut buffer, 4), None);
}

#[test]
fn bytes_that_are_no_text_are_handed_on_one_by_one() {
    let mut buffer = vec![0xff, b'a'];
    assert_eq!(split_valid_utf8_prefix(&mut buffer), Some(vec![0xff]));
    assert_eq!(split_valid_utf8_prefix(&mut buffer), Some(vec![b'a']));
}

#[test]
fn a_character_before_broken_bytes_stays_whole() {
    let mut buffer = "éa".as_bytes().to_vec();
    buffer.push(0xff);
    buffer.extend_from_slice(b"0123456");
    for piece in ["é".as_bytes(), b"a", b"\xff", b"0123456"] {
        assert_eq!(split_valid_utf8_prefix(&mut buffer).as_deref(), Some(piece));
    }
    assert_eq!(split_valid_utf8_prefix(&mut buffer), None);
}

fn told(stream: &mut OutputStream) -> Vec<Vec<u8>> {
    let mut pieces = Vec::new();
    while let Some(piece) = stream.next_piece(1, &read) {
        pieces.push(piece.bytes);
    }
    pieces
}

#[test]
fn the_beginning_of_a_character_waits_for_the_rest() {
    let mut stream = OutputStream::new(None, 10, 0);
    stream.push_chunk(&[b'a', 0xe2, 0x82], 1);
    assert_eq!(told(&mut stream), vec![vec![b'a']]);
    stream.push_chunk(&[0xac], 1);
    assert_eq!(told(&mut stream), vec![vec![0xe2, 0x82, 0xac]]);
    stream.push_chunk(&[0xf0, 0x9f], 1);
    assert!(told(&mut stream).is_empty());
    stream.push_chunk(b"b", 1);
    assert_eq!(told(&mut stream), vec![vec![0xf0], vec![0x9f], vec![b'b']]);
}

#[test]
fn output_that_is_held_back_is_no_silence() {
    let policy = || {
        let number = Number {
            bits: 5f64.to_bits(),
            shown: "5".to_string(),
            span: TimeSpan { secs: 5, nanos: 0 },
            span_shown: "5".to_string(),
        };
        let request = NumberRequest {
            text: "5".to_string(),
            unit: Some(DurationUnit::Seconds),
        };
        let entry = NumberEntry { request, number: Some(number) };
        match BackgroundTriggerPolicy::parse_with_numbers(
            &vec!["no_output_for:5s".to_string()],
            &vec![entry],
        ) {
            Ok(policy) => policy,
            Err(message) => panic!("{message}"),
        }
    };
    let second = 1_000_000_000;
    let mut stream = OutputStream::new(policy(), 10, 0);
    assert_eq!(stream.silence_deadline(), Some(5 * second));
    stream.push_chunk(&[], 2);
    assert_eq!(stream.silence_deadline(), Some(5 * second));
    stream.push_chunk(&[0xe2], 2_000_000_000);
    assert_eq!(stream.silence_deadline(), Some(7 * second));
    assert!(stream.next_piece(3_000_000_000, &read).is_none());
    assert_eq!(stream.silence_deadline(), Some(7 * second));
}

#[test]
fn bytes_that_no_character_begins_with_do_not_wait() {
    for broken in [
        vec![0xc1],
        vec![0x80],
        vec![0xe0, 0x80],
        vec![0xed, 0xa0],
        vec![0xf0, 0x8f],
        vec![0xf4, 0x90],
        vec![0xf5],
    ] {
        let mut stream = OutputStream::new(None, 10, 0);
        stream.push_chunk(&broken, 1);
        assert_eq!(told(&mut stream).concat(), broken);
    }
}

#[test]
fn the_beginning_of_a_character_is_told_when_the_stream_ends() {
    let mut stream = OutputStream::new(None, 10, 0);
    stream.push_chunk(&[0xe2, 0x82], 1);
    assert!(told(&mut stream).is_empty());
    assert!(matches!(
        stream.on_event(StreamEvent::Closed),
        StreamStep::Drained
    ));
    assert_eq!(told(&mut stream), vec![vec![0xe2], vec![0x82]]);
}

#[test]
fn pieces_hold_all_bytes_and_are_bounded() {
    let contents: Vec<u8> = "é".repeat(10_000).into_bytes();
    let mut buffer = contents.clone();
    let mut joined = Vec::new();
    while let Some(piece) = split_valid_utf8_prefix(&mut buffer) {
        assert!(piece.len() <= UNIFIED_EXEC_OUTPUT_DELTA_MAX_BYTES);
        joined.extend(piece);
    }
    assert_eq!(joined, contents);
}

#[test]
fn a_stream_tells_triggers_of_its_output() {
    let mut stream = OutputStream::new(Some(policy()), 1, 0);
    assert!(stream.waits_for_exit());
    assert!(stream.next_piece(1, &read).is_none());
    stream.push_chunk(b"all fine\n", 1);
    let piece = stream.next_piece(1, &read).expect("a piece");
    assert!(piece.is_delta);
    assert!(piece.fired.is_empty());
    stream.push_chunk(b"boom\n", 1);
    let piece = stream.next_piece(2, &read).expect("a piece");
    assert!(!piece.is_delta, "only so many pieces are told");
    assert_eq!(piece.bytes, b"boom\n");
    assert_eq!(piece.fired[0].trigger, "regex:boom");
    assert_eq!(piece.fired[0].output_tail, "all fine\nboom\n");
}

#[test]
fn a_stream_ends_after_the_trailing_output() {
    let mut stream = OutputStream::new(None, 1, 0);
    assert!(matches!(
        stream.on_event(StreamEvent::Lagged),
        StreamStep::Continue(_)
    ));
    assert!(matches!(
        stream.on_event(StreamEvent::ProcessEnded { now: 5 }),
        StreamStep::Continue(_)
    ));
    assert!(!stream.waits_for_exit());
    assert_eq!(stream.grace_deadline(), Some(5 + TRAILING_OUTPUT_GRACE));
    assert!(matches!(
        stream.on_event(StreamEvent::GraceOver),
        StreamStep::Drained
    ));
    assert!(matches!(
        stream.on_event(StreamEvent::Closed),
        StreamStep::Drained
    ));
    assert_eq!(stream.silence_deadline(), None);
}

#[test]
fn a_trigger_is_reported_once() {
    let (watched, policy) = watched_command(BackgroundTriggerWatchConfig {
        process_id: 12,
        command: vec!["make".to_string()],
        cwd: "/repo".to_string(),
        description: Some("build".to_string()),
        declared_triggers: vec!["regex:boom".to_string()],
        policy: policy(),
    });
    assert_eq!(policy.triggers.len(), 1);
    let fired = || {
        vec![BackgroundTriggerFired {
            trigger: "regex:boom".to_string(),
            reason: "why".to_string(),
            output_tail: "tail".to_string(),
        }]
    };
    let mut notifier = BackgroundEventNotifier::new();
    let events = background_trigger_events(&mut notifier, &watched, "c", "t", 9, &fired());
    assert_eq!(events.len(), 1);
    assert_eq!(events[0].process_id, "12");
    assert_eq!(events[0].triggered_at_ms, 9);
    assert_eq!(events[0].description.as_deref(), Some("build"));
    assert!(background_trigger_events(&mut notifier, &watched, "c", "t", 9, &fired()).is_empty());
    assert!(!notifier.mark_notified("12", "regex:boom"));
    assert!(notifier.mark_notified("13", "regex:boom"));
}

#[test]
fn an_exit_is_reported_with_its_code() {
    let report = exit_report(&ProcessEnd::Exited(Some(3)), b"out\xff", false, true);
    let event = report.background.expect("a background exit is told");
    assert_eq!(event.trigger, "on_exit");
    assert_eq!(event.reason, "process exited with code 3");
    assert_eq!(event.output_tail, "out\u{fffd}");
    assert_eq!(report.end.exit_code, 3);
    assert_eq!(report.end.stdout, "out\u{fffd}");
    assert!(!report.end.failed);
    let quiet = exit_report(&ProcessEnd::Exited(None), b"", true, true);
    assert!(quiet.background.is_none());
    assert_eq!(quiet.end.exit_code, -1);
}

#[test]
fn a_failure_is_reported_with_its_message() {
    let report = report_exit(
        &ProcessEnd::Failed("no such file".to_string()),
        &None,
        false,
        true,
    );
    let event = report.background.expect("a background failure is told");
    assert_eq!(event.trigger, "failure_exit");
    assert_eq!(event.reason, "process failed: no such file");
    assert_eq!(event.output_tail, "no such file");
    assert_eq!(report.end.aggregated_output, "no such file");
    assert_eq!(report.end.stderr, "no such file");
    assert!(report.end.failed);
    let partial = failed_exec_end_output(&Some("half".to_string()), "", "killed");
    assert_eq!(partial.aggregated_output, "half\nkilled");
}

#[test]
fn a_tail_keeps_the_last_characters() {
    assert_eq!(bounded_tail("abcé", 2), "cé");
    assert_eq!(bounded_tail("ab", 5), "ab");
}
