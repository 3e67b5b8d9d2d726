use std::time::Duration;

use codex_link::numbers::{
    at_most, finite, less_than, read_unit, DurationUnit, Number, NumberEntry, NumberRequest,
    TimeSpan,
};
use codex_link::trigger_declared::{declared_requests, BackgroundTriggerPolicy};
use codex_link::trigger_eval::{Observation, RuntimeTrigger, OUTPUT_TAIL_MAX_CHARS};
use codex_link::trigger_evaluator::{push_tail, BackgroundTriggerEvaluator};
use codex_link::trigger_policy::{
    metric_compiled, metric_regex, strip_trigger_prefix, BackgroundTriggerSpec, MetricComparator,
    RegexTriggerSpec,
};

const SECOND: u64 = 1_000_000_000;

fn read_number(text: &str, unit: Option<DurationUnit>) -> Option<Number> {
    let value = text.parse::<f64>().ok()?;
    let scale = match unit {
        Some(DurationUnit::Minutes) => 60.0,
        Some(DurationUnit::Hours) => 3600.0,
        Some(DurationUnit::Milliseconds) => 0.001,
        Some(DurationUnit::Seconds) | None => 1.0,
    };
    let span = if unit.is_some() && value.is_finite() && value > 0.0 {
        Duration::from_secs_f64(value * scale)
    } else {
        Duration::ZERO
    };
    Some(Number {
        bits: value.to_bits(),
        shown: format!("{value}"),
        span: TimeSpan {
            secs: span.as_secs(),
            nanos: span.subsec_nanos(),
        },
        span_shown: format!("{}", span.as_secs_f64()),
    })
}

fn read(text: &str, operand: u64) -> Option<Observation> {
    let value = text.parse::<f64>().ok()?;
    let other = f64::from_bits(operand);
    Some(Observation {
        bits: value.to_bits(),
        shown: format!("{value}"),
        near: (value - other).abs() <= f64::EPSILON,
        less: (value - other).to_bits(),
        plus: (value + other).to_bits(),
    })
}

fn declared(triggers: &[&str]) -> Result<Option<BackgroundTriggerPolicy>, String> {
    let triggers = triggers
        .iter()
        .map(std::string::ToString::to_string)
        .collect::<Vec<_>>();
    BackgroundTriggerPolicy::parse_declared(&triggers, &read_number)
}

fn refusal(trigger: &str) -> String {
    match declared(&[trigger]) {
        Ok(_) => panic!("{trigger} should be refused"),
        Err(message) => message,
    }
}

fn policy(triggers: &[&str]) -> BackgroundTriggerPolicy {
    match declared(triggers) {
        Ok(Some(policy)) => policy,
        Ok(None) => panic!("policy should contain executable triggers"),
        Err(message) => panic!("trigger policy should parse: {message}"),
    }
}

#[test]
fn regex_trigger_fires_once_on_output() {
    let now = 7 * SECOND;
    let mut evaluator =
        BackgroundTriggerEvaluator::new(policy(&["regex:CUDA out of memory|Traceback"]), now);

    let first = evaluator.on_output("epoch 1 ok\n", now + SECOND, &read);
    assert!(first.is_empty());

    let second = evaluator.on_output(
        "RuntimeError: CUDA out of memory\n",
        now + 2 * SECOND,
        &read,
    );
    assert_eq!(second.len(), 1);
    assert_eq!(second[0].trigger, "regex:CUDA out of memory|Traceback");
    assert!(second[0].reason.contains("regex"));

    let third = evaluator.on_output(
        "RuntimeError: CUDA out of memory\n",
        now + 3 * SECOND,
        &read,
    );
    assert!(third.is_empty());
}

#[test]
fn metric_threshold_fires_when_metric_crosses_threshold() {
    let now = 0;
    let mut evaluator =
        BackgroundTriggerEvaluator::new(policy(&["metric_threshold:val_loss < 0.30"]), now);

    assert!(evaluator
        .on_output("epoch=1 val_loss=0.42\n", now, &read)
        .is_empty());
    let fired = evaluator.on_output("epoch=2 val_loss=0.298\n", now, &read);

    assert_eq!(fired.len(), 1);
    assert_eq!(fired[0].trigger, "metric_threshold:val_loss < 0.30");
    assert!(fired[0].reason.contains("observed 0.298"));
    assert_eq!(
        fired[0].reason,
        "val_loss < 0.3 matched with observed 0.298"
    );
}

#[test]
fn plateau_trigger_counts_stale_metric_observations() {
    let now = 0;
    let mut evaluator = BackgroundTriggerEvaluator::new(
        policy(&["plateau:val_loss patience=3 min_delta=0.01"]),
        now,
    );

    assert!(evaluator
        .on_output("epoch=1 val_loss=0.50\n", now, &read)
        .is_empty());
    assert!(evaluator
        .on_output("epoch=2 val_loss=0.49\n", now, &read)
        .is_empty());
    assert!(evaluator
        .on_output("epoch=3 val_loss=0.488\n", now, &read)
        .is_empty());
    assert!(evaluator
        .on_output("epoch=4 val_loss=0.487\n", now, &read)
        .is_empty());
    let fired = evaluator.on_output("epoch=5 val_loss=0.489\n", now, &read);

    assert_eq!(fired.len(), 1);
    assert_eq!(
        fired[0].trigger,
        "plateau:val_loss patience=3 min_delta=0.01"
    );
    assert!(fired[0].reason.contains("plateaued"));
    assert_eq!(
        fired[0].reason,
        "val_loss plateaued: best 0.49, latest 0.489, stale observations 3"
    );
}

#[test]
fn no_output_trigger_uses_last_output_time() {
    let now = 100 * SECOND;
    let mut evaluator = BackgroundTriggerEvaluator::new(policy(&["no_output_for:10s"]), now);

    assert_eq!(
        evaluator.next_no_output_deadline(),
        Some((now + 10 * SECOND) as u128)
    );
    evaluator.on_output("still alive\n", now + 5 * SECOND, &read);
    assert_eq!(
        evaluator.next_no_output_deadline(),
        Some((now + 15 * SECOND) as u128)
    );

    assert!(evaluator
        .on_no_output_timeout(now + 14 * SECOND)
        .is_empty());
    let fired = evaluator.on_no_output_timeout(now + 15 * SECOND);

    assert_eq!(fired.len(), 1);
    assert_eq!(fired[0].trigger, "no_output_for:10s");
    assert!(fired[0].reason.contains("no output"));
    assert_eq!(fired[0].reason, "no output for 10 seconds");
    assert!(evaluator.next_no_output_deadline().is_none());
}

#[test]
fn invalid_structured_trigger_reports_parse_error() {
    let err = refusal("metric_threshold:val_loss below 0.30");

    assert!(err.contains("must use one of"));
}

#[test]
fn each_refusal_says_what_is_wrong() {
    assert_eq!(
        refusal("regex:  "),
        "`regex:` is missing a regex pattern"
    );
    assert!(refusal("regex:a(b").starts_with("invalid regex in background trigger `regex:a(b`: "));
    assert_eq!(
        refusal("no_output_for:"),
        "no_output_for trigger is missing a duration"
    );
    assert_eq!(refusal("no_output_for:soon"), "invalid duration `soon`");
    assert_eq!(
        refusal("no_output_for:0s"),
        "duration `0s` must be greater than zero"
    );
    assert_eq!(
        refusal("no_output_for:3 Fortnights"),
        "unsupported duration unit `fortnights` in `3 Fortnights`"
    );
    assert_eq!(
        refusal("metric_threshold: < 3"),
        "`metric_threshold: < 3` is missing a metric name"
    );
    assert_eq!(
        refusal("metric_threshold:a < b"),
        "`metric_threshold:a < b` has an invalid threshold"
    );
    assert_eq!(
        refusal("metric_threshold:a < inf"),
        "`metric_threshold:a < inf` threshold must be finite"
    );
    assert_eq!(
        refusal("plateau:"),
        "`plateau:` is missing a metric name"
    );
    assert_eq!(
        refusal("plateau:a patience=x"),
        "invalid patience in `plateau:a patience=x`"
    );
    assert_eq!(
        refusal("plateau:a patience=0"),
        "patience must be greater than zero in `plateau:a patience=0`"
    );
    assert_eq!(
        refusal("plateau:a min_delta=x"),
        "invalid min_delta in `plateau:a min_delta=x`"
    );
    assert_eq!(
        refusal("plateau:a min_delta=-1"),
        "min_delta must be non-negative in `plateau:a min_delta=-1`"
    );
    assert_eq!(
        refusal("plateau:a mode=up"),
        "mode must be min or max in `plateau:a mode=up`"
    );
    assert_eq!(
        refusal("plateau:a speed=3"),
        "unknown plateau option `speed` in `plateau:a speed=3`"
    );
}

#[test]
fn texts_that_name_no_trigger_are_left_alone() {
    assert!(matches!(declared(&["on_exit", "whatever"]), Ok(None)));
    assert_eq!(policy(&["on_exit", "regex:x"]).triggers.len(), 1);
}

#[test]
fn trigger_names_are_read_in_any_case() {
    assert_eq!(
        strip_trigger_prefix(" ReGeX:  a b ", "regex").as_deref(),
        strip_trigger_prefix("regex:  a b", "regex").as_deref()
    );
    assert_eq!(strip_trigger_prefix("reg", "regex"), None);
    assert_eq!(strip_trigger_prefix("régex", "regex"), None);
}

#[test]
fn durations_are_read_in_their_units() {
    for (text, seconds) in [
        ("no_output_for:90", 90),
        ("no_output_for:1.5m", 90),
        ("no_output_for:2 hours", 7200),
        ("no_output_for:3000ms", 3),
    ] {
        match &policy(&[text]).triggers[0] {
            BackgroundTriggerSpec::NoOutputFor(spec) => {
                assert_eq!(spec.duration, TimeSpan { secs: seconds, nanos: 0 });
                assert_eq!(spec.duration.as_nanos(), seconds as u128 * SECOND as u128);
            }
            _ => panic!("{text} is a silence trigger"),
        }
    }
    assert_eq!(read_unit("hrs"), Some(DurationUnit::Hours));
    assert_eq!(read_unit("years"), None);
}

#[test]
fn the_requests_are_all_that_is_read() {
    let triggers = vec![
        "metric_threshold:a < 3".to_string(),
        "no_output_for:2m".to_string(),
    ];
    let entries: Vec<NumberEntry> = declared_requests(&triggers)
        .into_iter()
        .map(|request| NumberEntry {
            number: read_number(&request.text, request.unit),
            request,
        })
        .collect();
    assert!(entries
        .iter()
        .any(|entry| entry.request
            == NumberRequest {
                text: "2".to_string(),
                unit: Some(DurationUnit::Minutes)
            }));
    match BackgroundTriggerPolicy::parse_with_numbers(&triggers, &entries) {
        Ok(Some(policy)) => assert_eq!(policy.triggers.len(), 2),
        _ => panic!("the triggers should parse"),
    }
}

#[test]
fn comparisons_are_those_of_the_numbers() {
    let numbers = [
        f64::NEG_INFINITY,
        -2.5,
        -0.0,
        0.0,
        f64::MIN_POSITIVE,
        0.3,
        1.0,
        f64::INFINITY,
        f64::NAN,
    ];
    for a in numbers {
        assert_eq!(finite(a.to_bits()), a.is_finite());
        for b in numbers {
            assert_eq!(less_than(a.to_bits(), b.to_bits()), a < b);
            assert_eq!(at_most(a.to_bits(), b.to_bits()), a <= b);
            let near = (a - b).abs() <= f64::EPSILON;
            for (comparator, expected) in [
                (MetricComparator::Lt, a < b),
                (MetricComparator::Le, a <= b),
                (MetricComparator::Gt, a > b),
                (MetricComparator::Ge, a >= b),
                (MetricComparator::Eq, near),
            ] {
                assert_eq!(
                    comparator.evaluate(a.to_bits(), near, b.to_bits()),
                    expected
                );
            }
        }
    }
    assert_eq!(MetricComparator::Ge.label(), ">=");
}

#[test]
fn a_metric_is_found_by_its_whole_name() {
    let mut trigger = BackgroundTriggerEvaluator::new(
        policy(&["metric_threshold:loss.total >= 2"]),
        0,
    );
    assert!(trigger.on_output("lossxtotal=3 sub_loss=9", 0, &read).is_empty());
    assert!(trigger.on_output("LOSS.TOTAL : 1e0", 0, &read).is_empty());
    assert_eq!(trigger.on_output("loss.total: 2", 0, &read).len(), 1);
    assert!(metric_regex(" ").is_err());
}

#[test]
fn the_first_of_several_numbers_that_meets_the_threshold_counts() {
    let mut evaluator =
        BackgroundTriggerEvaluator::new(policy(&["metric_threshold:a > 2"]), 0);
    let fired = evaluator.on_output("a=1 a=3 a=4", 0, &read);
    assert_eq!(fired[0].reason, "a > 2 matched with observed 3");
    assert_eq!(fired[0].output_tail, "a=1 a=3 a=4");
}

#[test]
fn a_plateau_may_seek_the_greatest_number() {
    let mut evaluator =
        BackgroundTriggerEvaluator::new(policy(&["plateau:acc patience=1 mode=max"]), 0);
    assert!(evaluator.on_output("acc=0.5 acc=0.6", 0, &read).is_empty());
    let fired = evaluator.on_output("acc=0.4", 0, &read);
    assert_eq!(
        fired[0].reason,
        "acc plateaued: best 0.6, latest 0.4, stale observations 1"
    );
}

#[test]
fn a_pattern_matches_across_pieces_of_output() {
    let mut evaluator = BackgroundTriggerEvaluator::new(policy(&["regex:Trace.*back"]), 0);
    assert!(evaluator.on_output("Trac", 0, &read).is_empty());
    assert_eq!(evaluator.on_output("eback", 0, &read).len(), 1);
}

#[test]
fn the_tail_keeps_the_end_of_the_output() {
    let mut tail = String::new();
    push_tail(&mut tail, &"a".repeat(OUTPUT_TAIL_MAX_CHARS));
    push_tail(&mut tail, "é!");
    assert_eq!(tail.chars().count(), OUTPUT_TAIL_MAX_CHARS);
    assert!(tail.ends_with("aé!"));
}

#[test]
fn what_was_compiled_decides() {
    let refused = RegexTriggerSpec::from_compiled("regex:x", Err("too big".to_string()));
    match refused {
        Err(message) => assert_eq!(
            message,
            "invalid regex in background trigger `regex:x`: too big"
        ),
        Ok(_) => panic!("a refused pattern gives no trigger"),
    }
    match metric_compiled("m", Err("too big".to_string())) {
        Err(message) => assert_eq!(message, "failed to compile metric parser for `m`: too big"),
        Ok(_) => panic!("a refused pattern gives no parser"),
    }
}

#[test]
fn observations_alone_decide_once_matched_is_known() {
    let mut policy = policy(&["regex:x"]);
    let mut trigger = RuntimeTrigger::from_spec(policy.triggers.remove(0));
    assert!(trigger.observe(false, &Vec::new(), "tail").is_none());
    let fired = trigger.observe(true, &Vec::new(), "tail").expect("it fires");
    assert_eq!(fired.output_tail, "tail");
    assert!(trigger.observe(true, &Vec::new(), "tail").is_none());
}

#[test]
fn short_patterns_are_not_refused_for_their_size() {
    let dense = [
        "a".repeat(10_000),
        r"\w".repeat(5_000),
        "(?i)".to_string() + &r"\W".repeat(4_998),
        "()".repeat(5_000),
        "a?".repeat(5_000),
        "a|".repeat(5_000),
        "[^a-z]".repeat(1_666),
        "[[:^punct:]]".repeat(833),
        "é.".repeat(5_000),
        "(?P<é>a)".to_string(),
    ];
    for pattern in dense {
        assert!(pattern.chars().count() <= 10_000);
        assert!(RegexTriggerSpec::new("raw", &pattern).is_ok(), "{pattern}");
    }
    assert!(RegexTriggerSpec::new("raw", "boom: <é> \"now\"").is_ok());
}

#[test]
fn small_counts_are_not_refused_for_their_size() {
    let counted = [
        r"error \d{3}".to_string(),
        r"\d{4}-\d{2}-\d{2}T(\d{2}):(\d{2})".to_string(),
        r"(\d{1,3}\.){3}\d{1,3}".to_string(),
        "[0-9a-f]{8}-[0-9a-f]{4}-[0-9a-f]{4}-[0-9a-f]{4}-[0-9a-f]{12}".to_string(),
        r"\x{41}\b{start}".to_string(),
        // As long as they can be, with as many copies.
        format!("(?:{}){{99}}", "()*".repeat(30)),
        format!("(?:^{}){{0,99}}", "*".repeat(40)),
        format!("(?i)(?:{}){{99,}}", r"\W".repeat(42)),
        format!("(?:{}|){{99}}", "|".repeat(90)),
        format!("((?:{}){{9}}){{9}}", "()?".repeat(27)),
        "a{9}".repeat(250),
        "[^a-z]{9}".repeat(111),
        "é{0,1}".repeat(833),
        "a{1400}".to_string(),
    ];
    for pattern in counted {
        assert!(RegexTriggerSpec::new("raw", &pattern).is_ok(), "{pattern}");
    }
    // Where white space is skipped, the digits make one number.
    let spaced = format!("(?x)(?:{}){{9 9 9 9 9}}", "ab".repeat(30));
    assert!(RegexTriggerSpec::new("raw", &spaced).is_err());
}

#[test]
fn any_short_metric_has_an_expression() {
    let odd = [
        r"\.+*?()|[]{}^$#&-~".to_string(),
        "{start}".to_string(),
        "b{1000000}".to_string(),
        "\u{0}\n\té ]".to_string(),
        "{".repeat(10_000),
        "é".repeat(10_000),
    ];
    for metric in odd {
        assert!(metric_regex(&metric).is_ok(), "{metric}");
    }
    assert!(declared(&["plateau:loss{a} patience=3", "metric_threshold:a[0] < 1"]).is_ok());
}
