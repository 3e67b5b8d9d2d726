//! The triggers that a background command declares.
//!
//! - `regex:<pattern>` fires when the output matches the pattern.
//! - `no_output_for:<duration>` fires when nothing is printed for so long.
//! - `metric_threshold:<metric> <op> <number>` fires when a printed metric
//!   meets the threshold.
//! - `plateau:<metric> [patience=<n>] [min_delta=<x>] [mode=min|max]` fires when
//!   a printed metric has not improved for so many observations.
//!
//! `on_exit` and `failure_exit` are reported elsewhere, and other texts are for
//! the reader alone.

use regex_lite::Regex;
use vstd::prelude::*;

use crate::decimal::{read_usize, usize_value};
use crate::numbers::{
    at_most, find_number, finite, is_at_most, is_finite, is_less, less_than, number_of, read_unit,
    unit_of, Number, NumberEntry, NumberRequest, NumberView, RequestView, TimeSpan,
};
use crate::regexes::{
    compile_regex, is_literal_pattern, is_small_pattern, named_number_pattern, regex_source,
    regex_syntax_error, MAX_SMALL_PATTERN_CHARS,
};
use crate::search::{split_once, split_once_chars};
use crate::split::{split_white_space, words};
use crate::text::{
    ascii_lowercase, char_texts, concat_3, concat_5, eq_ignore_case, from_chars, is_blank,
    lemma_trim_blank, lowercase_chars, opt_text, owned, str_eq, str_eq_ignore_case, sub_chars,
    to_chars, trim, trim_chars, trim_start, trim_start_chars, trimmed,
};

verus! {

/// How an observed metric is compared with a threshold.
#[derive(Clone, Copy, Debug, PartialEq, Eq, Structural)]
pub enum MetricComparator {
    Lt,
    Le,
    Gt,
    Ge,
    Eq,
}

impl MetricComparator {
    /// The sign of a comparison.
    pub open spec fn sign(self) -> Seq<char> {
        match self {
            MetricComparator::Lt => "<"@,
            MetricComparator::Le => "<="@,
            MetricComparator::Gt => ">"@,
            MetricComparator::Ge => ">="@,
            MetricComparator::Eq => "=="@,
        }
    }

    /// Whether a comparison holds; `near` tells whether the two numbers are
    /// within the least difference from one.
    pub open spec fn holds(self, observed: u64, near: bool, threshold: u64) -> bool {
        match self {
            MetricComparator::Lt => is_less(observed, threshold),
            MetricComparator::Le => is_at_most(observed, threshold),
            MetricComparator::Gt => is_less(threshold, observed),
            MetricComparator::Ge => is_at_most(threshold, observed),
            MetricComparator::Eq => near,
        }
    }

    /// The sign of a comparison.
    pub fn label(self) -> (r: &'static str)
        ensures
            r@ == self.sign(),
    {
        match self {
            MetricComparator::Lt => "<",
            MetricComparator::Le => "<=",
            MetricComparator::Gt => ">",
            MetricComparator::Ge => ">=",
            MetricComparator::Eq => "==",
        }
    }

    /// Compares an observed number with a threshold.
    pub fn evaluate(self, observed: u64, near: bool, threshold: u64) -> (r: bool)
        ensures
            r == self.holds(observed, near, threshold),
    {
        match self {
            MetricComparator::Lt => less_than(observed, threshold),
            MetricComparator::Le => at_most(observed, threshold),
            MetricComparator::Gt => less_than(threshold, observed),
            MetricComparator::Ge => at_most(threshold, observed),
            MetricComparator::Eq => near,
        }
    }
}

/// Whether less or more of a metric is better.
#[derive(Clone, Copy, Debug, PartialEq, Eq, Structural)]
pub enum PlateauMode {
    Min,
    Max,
}

/// Fires when the output matches a pattern.
pub struct RegexTriggerSpec {
    pub raw: String,
    pub regex: Regex,
}

/// Fires when nothing is printed for so long.
pub struct NoOutputForTriggerSpec {
    pub raw: String,
    pub duration: TimeSpan,
    /// The seconds of the duration, as the host shows them.
    pub seconds: String,
}

/// Fires when a metric meets a threshold.
pub struct MetricThresholdTriggerSpec {
    pub raw: String,
    pub metric: String,
    pub comparator: MetricComparator,
    pub threshold: Number,
    pub metric_regex: Regex,
}

/// Fires when a metric has not improved for so many observations.
pub struct PlateauTriggerSpec {
    pub raw: String,
    pub metric: String,
    pub patience: usize,
    /// The bits of the least improvement.
    pub min_delta: u64,
    pub mode: PlateauMode,
    pub metric_regex: Regex,
}

/// A trigger.
pub enum BackgroundTriggerSpec {
    Regex(RegexTriggerSpec),
    NoOutputFor(NoOutputForTriggerSpec),
    MetricThreshold(MetricThresholdTriggerSpec),
    Plateau(PlateauTriggerSpec),
}

/// What a [`BackgroundTriggerSpec`] says.
pub enum TriggerView {
    Regex { raw: Seq<char>, pattern: Seq<char> },
    NoOutputFor { raw: Seq<char>, duration: TimeSpan, seconds: Seq<char> },
    MetricThreshold {
        raw: Seq<char>,
        metric: Seq<char>,
        comparator: MetricComparator,
        threshold: NumberView,
        pattern: Seq<char>,
    },
    Plateau {
        raw: Seq<char>,
        metric: Seq<char>,
        patience: usize,
        min_delta: u64,
        mode: PlateauMode,
        pattern: Seq<char>,
    },
}

impl View for RegexTriggerSpec {
    type V = TriggerView;

    open spec fn view(&self) -> TriggerView {
        TriggerView::Regex { raw: self.raw@, pattern: regex_source(self.regex) }
    }
}

impl View for NoOutputForTriggerSpec {
    type V = TriggerView;

    open spec fn view(&self) -> TriggerView {
        TriggerView::NoOutputFor {
            raw: self.raw@,
            duration: self.duration,
            seconds: self.seconds@,
        }
    }
}

impl View for MetricThresholdTriggerSpec {
    type V = TriggerView;

    open spec fn view(&self) -> TriggerView {
        TriggerView::MetricThreshold {
            raw: self.raw@,
            metric: self.metric@,
            comparator: self.comparator,
            threshold: self.threshold@,
            pattern: regex_source(self.metric_regex),
        }
    }
}

impl View for PlateauTriggerSpec {
    type V = TriggerView;

    open spec fn view(&self) -> TriggerView {
        TriggerView::Plateau {
            raw: self.raw@,
            metric: self.metric@,
            patience: self.patience,
            min_delta: self.min_delta,
            mode: self.mode,
            pattern: regex_source(self.metric_regex),
        }
    }
}

impl View for BackgroundTriggerSpec {
    type V = TriggerView;

    open spec fn view(&self) -> TriggerView {
        match *self {
            BackgroundTriggerSpec::Regex(spec) => spec@,
            BackgroundTriggerSpec::NoOutputFor(spec) => spec@,
            BackgroundTriggerSpec::MetricThreshold(spec) => spec@,
            BackgroundTriggerSpec::Plateau(spec) => spec@,
        }
    }
}

/// What is said of a pattern: what is wrong with its syntax, or else what the
/// engine refuses it for, if it does.
pub open spec fn pattern_error(pattern: Seq<char>, refused: Option<Seq<char>>) -> Option<
    Seq<char>,
> {
    match regex_syntax_error(pattern) {
        Some(message) => Some(message),
        None => refused,
    }
}

/// The pattern that finds a metric and its value, whatever the case of the
/// metric.
pub open spec fn metric_pattern(metric: Seq<char>) -> Seq<char> {
    named_number_pattern(trim(metric))
}

/// Whether the expression of a pattern is made for certain, as far as its
/// syntax is right.
pub open spec fn is_accepted_pattern(text: Seq<char>) -> bool {
    is_small_pattern(trim(text))
}

/// Whether the expression that finds a metric is made for certain.
pub open spec fn is_accepted_metric(metric: Seq<char>) -> bool {
    trim(metric).len() <= MAX_SMALL_PATTERN_CHARS
}

/// Whether the expression that finds the metric of a comparison is made for
/// certain.
pub open spec fn has_accepted_metric(expression: Seq<char>) -> bool {
    first_comparison(expression) matches Some((comparator, before, after)) ==> is_accepted_metric(
        trim(before),
    )
}

/// Whether the expression that finds the metric of a plateau is made for
/// certain.
pub open spec fn leads_with_accepted_metric(expression: Seq<char>) -> bool {
    words(expression).len() > 0 ==> is_accepted_metric(words(expression)[0])
}

/// Whether the expression of a declared text, where it needs one, is made for
/// certain, as far as its syntax is right.
pub open spec fn is_accepted(declared: Seq<char>) -> bool {
    let raw = trim(declared);
    if is_passed_over(raw) {
        true
    } else if trigger_value(raw, "regex"@) is Some {
        is_accepted_pattern(trigger_value(raw, "regex"@)->0)
    } else if trigger_value(raw, "no_output_for"@) is Some {
        true
    } else if trigger_value(raw, "metric_threshold"@) is Some {
        has_accepted_metric(trigger_value(raw, "metric_threshold"@)->0)
    } else if trigger_value(raw, "metric_plateau"@) is Some {
        leads_with_accepted_metric(trigger_value(raw, "metric_plateau"@)->0)
    } else if trigger_value(raw, "plateau"@) is Some {
        leads_with_accepted_metric(trigger_value(raw, "plateau"@)->0)
    } else {
        true
    }
}

/// What is wrong with a metric, if anything.
pub open spec fn metric_error(metric: Seq<char>, refused: Option<Seq<char>>) -> Option<
    Seq<char>,
> {
    if is_blank(metric) {
        Some("metric name cannot be empty"@)
    } else {
        match pattern_error(metric_pattern(metric), refused) {
            Some(message) => Some(
                "failed to compile metric parser for `"@ + metric + "`: "@ + message,
            ),
            None => None,
        }
    }
}

/// What follows the name of a trigger, and a colon or an equals sign behind it,
/// whatever the case of the name.
pub open spec fn trigger_value(trigger: Seq<char>, name: Seq<char>) -> Option<Seq<char>> {
    let text = trim(trigger);
    if text.len() < name.len() || !eq_ignore_case(text.take(name.len() as int), name) {
        None
    } else {
        let rest = trim_start(text.skip(name.len() as int));
        if rest.len() > 0 && (rest[0] == ':' || rest[0] == '=') {
            Some(trim(rest.skip(1)))
        } else {
            None
        }
    }
}

/// The first position at which the amount of a duration has ended.
pub open spec fn amount_end(value: Seq<char>, from: int) -> int
    decreases value.len() - from,
{
    if from >= value.len() {
        value.len() as int
    } else if '0' <= value[from] <= '9' || value[from] == '.' {
        amount_end(value, from + 1)
    } else {
        from
    }
}

/// The amount of a duration.
pub open spec fn duration_amount(value: Seq<char>) -> Seq<char> {
    trim(value.take(amount_end(value, 0)))
}

/// The unit of a duration.
pub open spec fn duration_unit(value: Seq<char>) -> Seq<char> {
    ascii_lowercase(trim(value.skip(amount_end(value, 0))))
}

/// The number that a duration asks for.
pub open spec fn duration_request(value: Seq<char>) -> RequestView {
    (duration_amount(value), unit_of(duration_unit(value)))
}

/// The duration that a text stands for, or what is wrong with it.
pub open spec fn parsed_duration(text: Seq<char>, entries: Seq<NumberEntry>) -> Result<
    NumberView,
    Seq<char>,
> {
    let value = trim(text);
    if value.len() == 0 {
        Err("no_output_for trigger is missing a duration"@)
    } else {
        match number_of(entries, duration_request(value)) {
            None => Err("invalid duration `"@ + value + "`"@),
            Some(number) => if !is_finite(number.bits) || is_at_most(number.bits, 0) {
                Err("duration `"@ + value + "` must be greater than zero"@)
            } else if unit_of(duration_unit(value)) is None {
                Err(
                    "unsupported duration unit `"@ + duration_unit(value) + "` in `"@ + value
                        + "`"@,
                )
            } else {
                Ok(number)
            },
        }
    }
}

/// The comparison signs, in the order in which they are looked for.
pub open spec fn first_comparison(expression: Seq<char>) -> Option<
    (MetricComparator, Seq<char>, Seq<char>),
> {
    if split_once(expression, "<="@) is Some {
        let parts = split_once(expression, "<="@)->0;
        Some((MetricComparator::Le, parts.0, parts.1))
    } else if split_once(expression, ">="@) is Some {
        let parts = split_once(expression, ">="@)->0;
        Some((MetricComparator::Ge, parts.0, parts.1))
    } else if split_once(expression, "=="@) is Some {
        let parts = split_once(expression, "=="@)->0;
        Some((MetricComparator::Eq, parts.0, parts.1))
    } else if split_once(expression, "<"@) is Some {
        let parts = split_once(expression, "<"@)->0;
        Some((MetricComparator::Lt, parts.0, parts.1))
    } else if split_once(expression, ">"@) is Some {
        let parts = split_once(expression, ">"@)->0;
        Some((MetricComparator::Gt, parts.0, parts.1))
    } else {
        None
    }
}

/// The metric, the comparison and the threshold of an expression, or what is
/// wrong with it.
pub open spec fn parsed_threshold(
    raw: Seq<char>,
    expression: Seq<char>,
    entries: Seq<NumberEntry>,
) -> Result<(Seq<char>, MetricComparator, NumberView), Seq<char>> {
    match first_comparison(expression) {
        None => Err(
            "`"@ + raw + "` must use one of <, <=, >, >=, == in the metric expression"@,
        ),
        Some((comparator, before, after)) => if trim(before).len() == 0 {
            Err("`"@ + raw + "` is missing a metric name"@)
        } else {
            match number_of(entries, (trim(after), None)) {
                None => Err("`"@ + raw + "` has an invalid threshold"@),
                Some(number) => if !is_finite(number.bits) {
                    Err("`"@ + raw + "` threshold must be finite"@)
                } else {
                    Ok((trim(before), comparator, number))
                },
            }
        },
    }
}

/// The options of a plateau trigger.
pub struct PlateauOptions {
    pub patience: usize,
    pub min_delta: u64,
    pub mode: PlateauMode,
}

/// The options, where none is given.
pub open spec fn default_options() -> PlateauOptions {
    PlateauOptions { patience: 10, min_delta: 0, mode: PlateauMode::Min }
}

/// The options after one more, or what is wrong with it.
pub open spec fn with_option(
    options: PlateauOptions,
    raw: Seq<char>,
    part: Seq<char>,
    entries: Seq<NumberEntry>,
) -> Result<PlateauOptions, Seq<char>> {
    match split_once(part, "="@) {
        None => Err(
            "invalid plateau option `"@ + part + "` in `"@ + raw + "`; expected key=value"@,
        ),
        Some((key, text)) => {
            let name = ascii_lowercase(trim(key));
            let value = trim(text);
            if name == "patience"@ {
                match usize_value(value) {
                    None => Err("invalid patience in `"@ + raw + "`"@),
                    Some(patience) => if patience == 0 {
                        Err("patience must be greater than zero in `"@ + raw + "`"@)
                    } else {
                        Ok(PlateauOptions { patience, ..options })
                    },
                }
            } else if name == "min_delta"@ {
                match number_of(entries, (value, None)) {
                    None => Err("invalid min_delta in `"@ + raw + "`"@),
                    Some(number) => if !is_finite(number.bits) || is_less(number.bits, 0) {
                        Err("min_delta must be non-negative in `"@ + raw + "`"@)
                    } else {
                        Ok(PlateauOptions { min_delta: number.bits, ..options })
                    },
                }
            } else if name == "mode"@ {
                if ascii_lowercase(value) == "min"@ {
                    Ok(PlateauOptions { mode: PlateauMode::Min, ..options })
                } else if ascii_lowercase(value) == "max"@ {
                    Ok(PlateauOptions { mode: PlateauMode::Max, ..options })
                } else {
                    Err("mode must be min or max in `"@ + raw + "`"@)
                }
            } else {
                Err("unknown plateau option `"@ + key + "` in `"@ + raw + "`"@)
            }
        },
    }
}

/// The options of a plateau trigger, or what is wrong with the first that is
/// wrong.
pub open spec fn parsed_options(
    raw: Seq<char>,
    parts: Seq<Seq<char>>,
    entries: Seq<NumberEntry>,
) -> Result<PlateauOptions, Seq<char>>
    decreases parts.len(),
{
    if parts.len() == 0 {
        Ok(default_options())
    } else {
        match parsed_options(raw, parts.drop_last(), entries) {
            Err(message) => Err(message),
            Ok(options) => with_option(options, raw, parts.last(), entries),
        }
    }
}

/// A regex trigger, or what is wrong with it.
pub open spec fn parsed_regex(
    raw: Seq<char>,
    text: Seq<char>,
    refused: Option<Seq<char>>,
) -> Result<TriggerView, Seq<char>> {
    let pattern = trim(text);
    if pattern.len() == 0 {
        Err("`"@ + raw + "` is missing a regex pattern"@)
    } else {
        match pattern_error(pattern, refused) {
            Some(message) => Err(
                "invalid regex in background trigger `"@ + raw + "`: "@ + message,
            ),
            None => Ok(TriggerView::Regex { raw, pattern }),
        }
    }
}

/// A metric threshold trigger, or what is wrong with it.
pub open spec fn parsed_metric_threshold(
    raw: Seq<char>,
    expression: Seq<char>,
    entries: Seq<NumberEntry>,
    refused: Option<Seq<char>>,
) -> Result<TriggerView, Seq<char>> {
    match parsed_threshold(raw, expression, entries) {
        Err(message) => Err(message),
        Ok((metric, comparator, threshold)) => match metric_error(metric, refused) {
            Some(message) => Err(message),
            None => Ok(
                TriggerView::MetricThreshold {
                    raw,
                    metric,
                    comparator,
                    threshold,
                    pattern: metric_pattern(metric),
                },
            ),
        },
    }
}

/// A plateau trigger, or what is wrong with it.
pub open spec fn parsed_plateau(
    raw: Seq<char>,
    expression: Seq<char>,
    entries: Seq<NumberEntry>,
    refused: Option<Seq<char>>,
) -> Result<TriggerView, Seq<char>> {
    let parts = words(expression);
    if parts.len() == 0 {
        Err("`"@ + raw + "` is missing a metric name"@)
    } else {
        let metric = parts[0];
        match parsed_options(raw, parts.skip(1), entries) {
            Err(message) => Err(message),
            Ok(options) => match metric_error(metric, refused) {
                Some(message) => Err(message),
                None => Ok(
                    TriggerView::Plateau {
                        raw,
                        metric,
                        patience: options.patience,
                        min_delta: options.min_delta,
                        mode: options.mode,
                        pattern: metric_pattern(metric),
                    },
                ),
            },
        }
    }
}

/// Whether a trigger is reported elsewhere, or is blank.
pub open spec fn is_passed_over(raw: Seq<char>) -> bool {
    raw.len() == 0 || eq_ignore_case(raw, "on_exit"@) || eq_ignore_case(raw, "failure_exit"@)
}

/// The trigger that a declared text stands for, if it stands for one, or what
/// is wrong with it.
pub open spec fn parsed_trigger(
    declared: Seq<char>,
    entries: Seq<NumberEntry>,
    refused: Option<Seq<char>>,
) -> Result<Option<TriggerView>, Seq<char>> {
    let raw = trim(declared);
    if is_passed_over(raw) {
        Ok(None)
    } else if trigger_value(raw, "regex"@) is Some {
        some_trigger(parsed_regex(raw, trigger_value(raw, "regex"@)->0, refused))
    } else if trigger_value(raw, "no_output_for"@) is Some {
        match parsed_duration(trigger_value(raw, "no_output_for"@)->0, entries) {
            Err(message) => Err(message),
            Ok(number) => Ok(
                Some(
                    TriggerView::NoOutputFor {
                        raw,
                        duration: number.span,
                        seconds: number.span_shown,
                    },
                ),
            ),
        }
    } else if trigger_value(raw, "metric_threshold"@) is Some {
        some_trigger(
            parsed_metric_threshold(
                raw,
                trigger_value(raw, "metric_threshold"@)->0,
                entries,
                refused,
            ),
        )
    } else if trigger_value(raw, "metric_plateau"@) is Some {
        some_trigger(
            parsed_plateau(raw, trigger_value(raw, "metric_plateau"@)->0, entries, refused),
        )
    } else if trigger_value(raw, "plateau"@) is Some {
        some_trigger(parsed_plateau(raw, trigger_value(raw, "plateau"@)->0, entries, refused))
    } else {
        Ok(None)
    }
}

/// A trigger where there is one for certain.
pub open spec fn some_trigger(parsed: Result<TriggerView, Seq<char>>) -> Result<
    Option<TriggerView>,
    Seq<char>,
> {
    match parsed {
        Ok(trigger) => Ok(Some(trigger)),
        Err(message) => Err(message),
    }
}

/// The triggers of the declared texts, or what is wrong with the first that is
/// wrong; `refused` holds, for each text, what the engine refuses its pattern
/// for.
pub open spec fn parsed_triggers(
    declared: Seq<Seq<char>>,
    entries: Seq<NumberEntry>,
    refused: Seq<Option<Seq<char>>>,
) -> Result<Seq<TriggerView>, Seq<char>>
    decreases declared.len(),
{
    if declared.len() == 0 {
        Ok(Seq::empty())
    } else {
        match parsed_triggers(declared.drop_last(), entries, refused) {
            Err(message) => Err(message),
            Ok(before) => match parsed_trigger(
                declared.last(),
                entries,
                refused[declared.len() - 1],
            ) {
                Err(message) => Err(message),
                Ok(Some(trigger)) => Ok(before.push(trigger)),
                Ok(None) => Ok(before),
            },
        }
    }
}

/// What a result says, of which the error is a message.
pub open spec fn said<A: View>(r: Result<A, String>) -> Result<A::V, Seq<char>> {
    match r {
        Ok(value) => Ok(value@),
        Err(message) => Err(message@),
    }
}

/// What an expression was refused for, if it was.
spec fn refusal(compiled: Result<Regex, String>) -> Option<Seq<char>> {
    match compiled {
        Ok(_) => None,
        Err(message) => Some(message@),
    }
}

/// What a metric's expression was refused for, if it was.
spec fn metric_refusal(metric: Seq<char>, compiled: Result<Regex, String>) -> Option<Seq<char>> {
    match compiled {
        Ok(_) => None,
        Err(message) => choose|refused: Option<Seq<char>>| #[trigger]
            metric_error(metric, refused) == Some(message@),
    }
}

/// What is told of a metric whose expression was made or refused.
pub fn metric_compiled(metric: &str, compiled: Result<Regex, String>) -> (r: Result<Regex, String>)
    ensures
        compiled matches Ok(regex) ==> r == Ok::<Regex, String>(regex),
        compiled matches Err(message) ==> r is Err && r->Err_0@
            == "failed to compile metric parser for `"@ + metric@ + "`: "@ + message@,
{
    match compiled {
        Ok(regex) => Ok(regex),
        Err(message) => {
            let mut told = concat_3("failed to compile metric parser for `", metric, "`: ");
            told.append(message.as_str());
            Err(told)
        },
    }
}

/// Makes the expression that finds a metric, or tells what is wrong.
pub fn metric_regex(metric: &str) -> (r: Result<Regex, String>)
    ensures
        r matches Ok(regex) ==> metric_error(metric@, None) is None && regex_source(regex)
            == metric_pattern(metric@),
        r matches Err(message) ==> exists|refused: Option<Seq<char>>| #[trigger]
            metric_error(metric@, refused) == Some(message@),
        !is_blank(metric@) && is_accepted_metric(metric@) ==> r is Ok,
{
    let name = trimmed(metric);
    proof {
        lemma_trim_blank(metric@);
    }
    if name.as_str().is_empty() {
        assert(metric_error(metric@, None) is Some);
        return Err(owned("metric name cannot be empty"));
    }
    let escaped_metric = regex_lite::escape(name.as_str());
    let pattern = concat_3(
        r"(?i)\b",
        escaped_metric.as_str(),
        r"\b\s*[:=]\s*([-+]?(?:\d+(?:\.\d*)?|\.\d+)(?:[eE][-+]?\d+)?)",
    );
    assert(pattern@ == named_number_pattern(name@));
    let compiled = compile_regex(pattern.as_str());
    let ghost refused = refusal(compiled);
    let r = metric_compiled(metric, compiled);
    assert(r is Err ==> pattern_error(pattern@, refused) == refused);
    assert(r is Err ==> metric_error(metric@, refused) == Some(r->Err_0@));
    r
}

impl RegexTriggerSpec {
    /// The trigger of an expression that was made or refused.
    pub fn from_compiled(raw: &str, compiled: Result<Regex, String>) -> (r: Result<Self, String>)
        ensures
            compiled matches Ok(regex) ==> r matches Ok(spec) && spec.raw@ == raw@ && spec.regex
                == regex,
            compiled matches Err(message) ==> r is Err && r->Err_0@
                == "invalid regex in background trigger `"@ + raw@ + "`: "@ + message@,
    {
        match compiled {
            Ok(regex) => Ok(RegexTriggerSpec { raw: owned(raw), regex }),
            Err(message) => {
                let mut told = concat_3("invalid regex in background trigger `", raw, "`: ");
                told.append(message.as_str());
                Err(told)
            },
        }
    }

    /// The trigger of a pattern.
    pub fn new(raw: &str, pattern: &str) -> (r: Result<Self, String>)
        ensures
            exists|refused: Option<Seq<char>>|
                (is_accepted_pattern(pattern@) ==> refused is None) && #[trigger] parsed_regex(
                    raw@,
                    pattern@,
                    refused,
                ) == said(r),
            trim(pattern@).len() > 0 && is_accepted_pattern(pattern@) && is_literal_pattern(
                trim(pattern@),
            ) ==> r is Ok,
    {
        let text = trimmed(pattern);
        if text.as_str().is_empty() {
            let r = Err(concat_3("`", raw, "` is missing a regex pattern"));
            assert(parsed_regex(raw@, pattern@, None) == said(r));
            return r;
        }
        let compiled = compile_regex(text.as_str());
        let ghost refused = if regex_syntax_error(text@) is Some {
            None
        } else {
            refusal(compiled)
        };
        let r = RegexTriggerSpec::from_compiled(raw, compiled);
        assert(parsed_regex(raw@, pattern@, refused) == said(r));
        r
    }
}

fn take_chars(chars: &[char], n: usize) -> (r: Vec<char>)
    requires
        n <= chars@.len(),
    ensures
        r@ == chars@.take(n as int),
{
    let r = sub_chars(chars, 0, n);
    assert(r@ =~= chars@.take(n as int));
    r
}

fn skip_chars(chars: &[char], n: usize) -> (r: Vec<char>)
    requires
        n <= chars@.len(),
    ensures
        r@ == chars@.skip(n as int),
{
    let r = sub_chars(chars, n, chars.len());
    assert(r@ =~= chars@.skip(n as int));
    r
}

/// What follows the name of a trigger, where it has that name.
pub fn strip_trigger_prefix(trigger: &str, prefix: &str) -> (r: Option<String>)
    ensures
        opt_text(r) == trigger_value(trigger@, prefix@),
{
    let text = trim_chars(to_chars(trigger).as_slice());
    let name_len = to_chars(prefix).len();
    if text.len() < name_len {
        return None;
    }
    let head = from_chars(take_chars(text.as_slice(), name_len).as_slice());
    if !str_eq_ignore_case(head.as_str(), prefix) {
        return None;
    }
    let rest = trim_start_chars(skip_chars(text.as_slice(), name_len).as_slice());
    if rest.len() > 0 && (rest[0] == ':' || rest[0] == '=') {
        let value = trim_chars(skip_chars(rest.as_slice(), 1).as_slice());
        Some(from_chars(value.as_slice()))
    } else {
        None
    }
}

fn find_amount_end(value: &[char]) -> (r: usize)
    ensures
        r == amount_end(value@, 0),
        r <= value@.len(),
{
    let len = value.len();
    let mut i: usize = 0;
    while i < len
        invariant
            i <= len,
            len == value@.len(),
            amount_end(value@, 0) == amount_end(value@, i as int),
        decreases len - i,
    {
        let c = value[i];
        if !(('0' <= c && c <= '9') || c == '.') {
            return i;
        }
        i += 1;
    }
    i
}

/// The number that a duration asks for.
pub fn request_duration(value: &[char]) -> (r: NumberRequest)
    ensures
        r@ == duration_request(value@),
{
    let end = find_amount_end(value);
    let amount = trim_chars(take_chars(value, end).as_slice());
    let unit = lowercase_chars(trim_chars(skip_chars(value, end).as_slice()).as_slice());
    let unit = from_chars(unit.as_slice());
    NumberRequest { text: from_chars(amount.as_slice()), unit: read_unit(unit.as_str()) }
}

/// Reads a duration.
pub fn parse_duration(text: &str, entries: &Vec<NumberEntry>) -> (r: Result<Number, String>)
    ensures
        said(r) == parsed_duration(text@, entries@),
{
    let chars = trim_chars(to_chars(text).as_slice());
    let value = from_chars(chars.as_slice());
    if chars.len() == 0 {
        return Err(owned("no_output_for trigger is missing a duration"));
    }
    let request = request_duration(chars.as_slice());
    match find_number(entries, request.text.as_str(), request.unit) {
        None => Err(concat_3("invalid duration `", value.as_str(), "`")),
        Some(number) => {
            if !finite(number.bits) || at_most(number.bits, 0) {
                return Err(
                    concat_3("duration `", value.as_str(), "` must be greater than zero"),
                );
            }
            if request.unit.is_none() {
                let end = find_amount_end(chars.as_slice());
                let unit = lowercase_chars(
                    trim_chars(skip_chars(chars.as_slice(), end).as_slice()).as_slice(),
                );
                let unit = from_chars(unit.as_slice());
                return Err(
                    concat_5(
                        "unsupported duration unit `",
                        unit.as_str(),
                        "` in `",
                        value.as_str(),
                        "`",
                    ),
                );
            }
            Ok(number)
        },
    }
}

/// An expression at a comparison sign.
pub fn split_comparison(expression: &str) -> (r: Option<(MetricComparator, Vec<char>, Vec<char>)>)
    ensures
        match r {
            Some(parts) => first_comparison(expression@) == Some((parts.0, parts.1@, parts.2@)),
            None => first_comparison(expression@) is None,
        },
{
    let chars = to_chars(expression);
    let sign = to_chars("<=");
    if let Some((before, after)) = split_once_chars(chars.as_slice(), sign.as_slice()) {
        return Some((MetricComparator::Le, before, after));
    }
    let sign = to_chars(">=");
    if let Some((before, after)) = split_once_chars(chars.as_slice(), sign.as_slice()) {
        return Some((MetricComparator::Ge, before, after));
    }
    let sign = to_chars("==");
    if let Some((before, after)) = split_once_chars(chars.as_slice(), sign.as_slice()) {
        return Some((MetricComparator::Eq, before, after));
    }
    let sign = to_chars("<");
    if let Some((before, after)) = split_once_chars(chars.as_slice(), sign.as_slice()) {
        return Some((MetricComparator::Lt, before, after));
    }
    let sign = to_chars(">");
    if let Some((before, after)) = split_once_chars(chars.as_slice(), sign.as_slice()) {
        return Some((MetricComparator::Gt, before, after));
    }
    None
}

/// Reads the metric, the comparison and the threshold of an expression.
pub fn parse_metric_threshold_expression(
    raw: &str,
    expression: &str,
    entries: &Vec<NumberEntry>,
) -> (r: Result<(String, MetricComparator, Number), String>)
    ensures
        match r {
            Ok(parts) => parsed_threshold(raw@, expression@, entries@) == Ok::<
                (Seq<char>, MetricComparator, NumberView),
                Seq<char>,
            >((parts.0@, parts.1, parts.2@)),
            Err(message) => parsed_threshold(raw@, expression@, entries@) == Err::<
                (Seq<char>, MetricComparator, NumberView),
                Seq<char>,
            >(message@),
        },
{
    match split_comparison(expression) {
        None => Err(
            concat_3("`", raw, "` must use one of <, <=, >, >=, == in the metric expression"),
        ),
        Some((comparator, before, after)) => {
            let metric = trim_chars(before.as_slice());
            if metric.len() == 0 {
                return Err(concat_3("`", raw, "` is missing a metric name"));
            }
            let text = from_chars(trim_chars(after.as_slice()).as_slice());
            match find_number(entries, text.as_str(), None) {
                None => Err(concat_3("`", raw, "` has an invalid threshold")),
                Some(number) => {
                    if !finite(number.bits) {
                        return Err(concat_3("`", raw, "` threshold must be finite"));
                    }
                    Ok((from_chars(metric.as_slice()), comparator, number))
                },
            }
        },
    }
}

impl MetricThresholdTriggerSpec {
    /// The trigger of a comparison, given the expression that finds its metric,
    /// or what was said of that.
    pub fn from_compiled(
        raw: &str,
        metric: String,
        comparator: MetricComparator,
        threshold: Number,
        compiled: Result<Regex, String>,
    ) -> (r: Result<Self, String>)
        ensures
            compiled matches Ok(regex) ==> r matches Ok(spec) && spec.raw@ == raw@ && spec.metric
                == metric && spec.comparator == comparator && spec.threshold == threshold
                && spec.metric_regex == regex,
            compiled matches Err(message) ==> r == Err::<Self, String>(message),
    {
        match compiled {
            Err(message) => Err(message),
            Ok(metric_regex) => Ok(
                MetricThresholdTriggerSpec {
                    raw: owned(raw),
                    metric,
                    comparator,
                    threshold,
                    metric_regex,
                },
            ),
        }
    }

    /// The trigger of an expression.
    pub fn new(raw: &str, expression: &str, entries: &Vec<NumberEntry>) -> (r: Result<
        Self,
        String,
    >)
        ensures
            exists|refused: Option<Seq<char>>|
                (has_accepted_metric(expression@) ==> refused is None)
                    && #[trigger] parsed_metric_threshold(raw@, expression@, entries@, refused)
                    == said(r),
    {
        match parse_metric_threshold_expression(raw, expression, entries) {
            Err(message) => {
                let r = Err(message);
                assert(parsed_metric_threshold(raw@, expression@, entries@, None) == said(r));
                r
            },
            Ok((metric, comparator, threshold)) => {
                let compiled = metric_regex(metric.as_str());
                let ghost refused = metric_refusal(metric@, compiled);
                let r = MetricThresholdTriggerSpec::from_compiled(
                    raw,
                    metric,
                    comparator,
                    threshold,
                    compiled,
                );
                assert(parsed_metric_threshold(raw@, expression@, entries@, refused) == said(r));
                r
            },
        }
    }
}

fn apply_option(
    options: PlateauOptions,
    raw: &str,
    part: &[char],
    entries: &Vec<NumberEntry>,
) -> (r: Result<PlateauOptions, String>)
    ensures
        match r {
            Ok(after) => with_option(options, raw@, part@, entries@) == Ok::<
                PlateauOptions,
                Seq<char>,
            >(after),
            Err(message) => with_option(options, raw@, part@, entries@) == Err::<
                PlateauOptions,
                Seq<char>,
            >(message@),
        },
{
    let sign = to_chars("=");
    match split_once_chars(part, sign.as_slice()) {
        None => {
            let part = from_chars(part);
            Err(
                concat_5(
                    "invalid plateau option `",
                    part.as_str(),
                    "` in `",
                    raw,
                    "`; expected key=value",
                ),
            )
        },
        Some((key, text)) => {
            let name = lowercase_chars(trim_chars(key.as_slice()).as_slice());
            let name = from_chars(name.as_slice());
            let name = name.as_str();
            let value = trim_chars(text.as_slice());
            if str_eq(name, "patience") {
                match read_usize(value.as_slice()) {
                    None => Err(concat_3("invalid patience in `", raw, "`")),
                    Some(patience) => {
                        if patience == 0 {
                            return Err(
                                concat_3("patience must be greater than zero in `", raw, "`"),
                            );
                        }
                        Ok(PlateauOptions { patience, ..options })
                    },
                }
            } else if str_eq(name, "min_delta") {
                let value = from_chars(value.as_slice());
                match find_number(entries, value.as_str(), None) {
                    None => Err(concat_3("invalid min_delta in `", raw, "`")),
                    Some(number) => {
                        if !finite(number.bits) || less_than(number.bits, 0) {
                            return Err(
                                concat_3("min_delta must be non-negative in `", raw, "`"),
                            );
                        }
                        Ok(PlateauOptions { min_delta: number.bits, ..options })
                    },
                }
            } else if str_eq(name, "mode") {
                let value = from_chars(lowercase_chars(value.as_slice()).as_slice());
                let value = value.as_str();
                if str_eq(value, "min") {
                    Ok(PlateauOptions { mode: PlateauMode::Min, ..options })
                } else if str_eq(value, "max") {
                    Ok(PlateauOptions { mode: PlateauMode::Max, ..options })
                } else {
                    Err(concat_3("mode must be min or max in `", raw, "`"))
                }
            } else {
                let key = from_chars(key.as_slice());
                Err(concat_5("unknown plateau option `", key.as_str(), "` in `", raw, "`"))
            }
        },
    }
}

/// Reads the options of a plateau trigger, which follow the metric.
pub fn parse_options(raw: &str, parts: &Vec<Vec<char>>, entries: &Vec<NumberEntry>) -> (r: Result<
    PlateauOptions,
    String,
>)
    requires
        parts@.len() > 0,
    ensures
        match r {
            Ok(options) => parsed_options(raw@, char_texts(parts@).skip(1), entries@) == Ok::<
                PlateauOptions,
                Seq<char>,
            >(options),
            Err(message) => parsed_options(raw@, char_texts(parts@).skip(1), entries@) == Err::<
                PlateauOptions,
                Seq<char>,
            >(message@),
        },
{
    let ghost all = char_texts(parts@).skip(1);
    let mut options = PlateauOptions { patience: 10, min_delta: 0, mode: PlateauMode::Min };
    let mut i: usize = 1;
    assert(all.take(0) =~= Seq::empty());
    while i < parts.len()
        invariant
            1 <= i <= parts.len(),
            all == char_texts(parts@).skip(1),
            parsed_options(raw@, all.take(i - 1), entries@) == Ok::<PlateauOptions, Seq<char>>(
                options,
            ),
        decreases parts.len() - i,
    {
        assert(all.take(i as int).drop_last() =~= all.take(i - 1));
        assert(all.take(i as int).last() == parts@[i as int]@);
        match apply_option(options, raw, parts[i].as_slice(), entries) {
            Ok(after) => {
                options = after;
            },
            Err(message) => {
                proof {
                    lemma_option_error_stays(raw@, all, entries@, i as int);
                }
                return Err(message);
            },
        }
        i += 1;
    }
    assert(all.take(i - 1) =~= all);
    Ok(options)
}

proof fn lemma_option_error_stays(
    raw: Seq<char>,
    parts: Seq<Seq<char>>,
    entries: Seq<NumberEntry>,
    n: int,
)
    requires
        0 <= n <= parts.len(),
        parsed_options(raw, parts.take(n), entries) is Err,
    ensures
        parsed_options(raw, parts, entries) == parsed_options(raw, parts.take(n), entries),
    decreases parts.len() - n,
{
    if n < parts.len() {
        assert(parts.take(n + 1).drop_last() =~= parts.take(n));
        lemma_option_error_stays(raw, parts, entries, n + 1);
    } else {
        assert(parts.take(n) =~= parts);
    }
}

impl PlateauTriggerSpec {
    /// The trigger of a metric with its options, given the expression that
    /// finds the metric, or what was said of that.
    pub fn from_compiled(
        raw: &str,
        metric: String,
        options: PlateauOptions,
        compiled: Result<Regex, String>,
    ) -> (r: Result<Self, String>)
        ensures
            compiled matches Ok(regex) ==> r matches Ok(spec) && spec.raw@ == raw@ && spec.metric
                == metric && spec.patience == options.patience && spec.min_delta
                == options.min_delta && spec.mode == options.mode && spec.metric_regex == regex,
            compiled matches Err(message) ==> r == Err::<Self, String>(message),
    {
        match compiled {
            Err(message) => Err(message),
            Ok(metric_regex) => Ok(
                PlateauTriggerSpec {
                    raw: owned(raw),
                    metric,
                    patience: options.patience,
                    min_delta: options.min_delta,
                    mode: options.mode,
                    metric_regex,
                },
            ),
        }
    }

    /// The trigger of an expression.
    pub fn new(raw: &str, expression: &str, entries: &Vec<NumberEntry>) -> (r: Result<
        Self,
        String,
    >)
        ensures
            exists|refused: Option<Seq<char>>|
                (leads_with_accepted_metric(expression@) ==> refused is None)
                    && #[trigger] parsed_plateau(raw@, expression@, entries@, refused) == said(r),
    {
        let parts = split_white_space(to_chars(expression).as_slice());
        assert(char_texts(parts@).len() == parts.len());
        if parts.len() == 0 {
            let r = Err(concat_3("`", raw, "` is missing a metric name"));
            assert(parsed_plateau(raw@, expression@, entries@, None) == said(r));
            return r;
        }
        let metric = from_chars(parts[0].as_slice());
        assert(metric@ == char_texts(parts@)[0]);
        let options = match parse_options(raw, &parts, entries) {
            Ok(options) => options,
            Err(message) => {
                let r = Err(message);
                assert(parsed_plateau(raw@, expression@, entries@, None) == said(r));
                return r;
            },
        };
        let compiled = metric_regex(metric.as_str());
        let ghost refused = metric_refusal(metric@, compiled);
        let r = PlateauTriggerSpec::from_compiled(raw, metric, options, compiled);
        assert(parsed_plateau(raw@, expression@, entries@, refused) == said(r));
        r
    }
}

} // verus!
