//! What holds of declared triggers: how each form is read, and which triggers
//! a list of declared texts stands for.

use vstd::prelude::*;

use crate::choices::{is_choice, lemma_choice_step, lemma_no_choice, lemma_same_choice};
use crate::decimal::usize_value;
use crate::numbers::{
    is_at_most, is_finite, is_less, number_at, number_of, opt_number, unit_of, DurationUnit,
    NumberEntry, NumberView, RequestView,
};
use crate::regexes::{escaped, regex_syntax_error};
use crate::search::{find_from, lemma_find_from, occurs_at, split_once};
use crate::split::words;
use crate::text::{
    ascii_lower, ascii_lowercase, eq_ignore_case, is_blank, is_white_space, lemma_trim_blank, trim,
    trim_end, trim_start,
};
use crate::text_laws::{lemma_trim, lemma_trim_around};
use crate::trigger_policy::{
    amount_end, duration_request, first_comparison, metric_error, metric_pattern, parsed_duration,
    parsed_options, parsed_threshold, parsed_trigger, parsed_triggers, pattern_error, trigger_value,
    with_option, MetricComparator, PlateauMode, PlateauOptions, TriggerView,
};

verus! {

/// Numbers above zero are ordered as their bits, numbers below zero the other
/// way round, and every number below zero is less than every number above it.
/// The two zeros are alike. What is no number is neither less nor at most
/// anything.
pub proof fn lemma_numbers_are_ordered(a: u64, b: u64)
    ensures
        a <= 0x7ff0_0000_0000_0000 && b <= 0x7ff0_0000_0000_0000 ==> (is_less(a, b) <==> a < b)
            && (is_at_most(a, b) <==> a <= b),
        0x8000_0000_0000_0000 <= a <= 0xfff0_0000_0000_0000 && 0x8000_0000_0000_0000 <= b
            <= 0xfff0_0000_0000_0000 ==> (is_less(a, b) <==> a > b) && (is_at_most(a, b) <==> a
            >= b),
        0x8000_0000_0000_0000 < a <= 0xfff0_0000_0000_0000 && b <= 0x7ff0_0000_0000_0000
            ==> is_less(a, b) && !is_less(b, a) && !is_at_most(b, a),
        is_at_most(0x8000_0000_0000_0000, 0) && is_at_most(0, 0x8000_0000_0000_0000),
        0x7ff0_0000_0000_0000 < a < 0x8000_0000_0000_0000 || a > 0xfff0_0000_0000_0000
            ==> !is_less(a, b) && !is_less(b, a) && !is_at_most(a, b) && !is_at_most(b, a),
        is_finite(a) <==> a < 0x7ff0_0000_0000_0000 || 0x8000_0000_0000_0000 <= a
            < 0xfff0_0000_0000_0000,
{
}

/// Of two numbers, exactly the comparisons hold whose signs are true of them;
/// equality is left to whether the numbers are near each other.
pub proof fn lemma_comparisons_go_by_their_signs(observed: u64, threshold: u64, near: bool)
    requires
        is_finite(observed),
        is_finite(threshold),
    ensures
        MetricComparator::Lt.holds(observed, near, threshold) <==> is_less(observed, threshold),
        MetricComparator::Ge.holds(observed, near, threshold) <==> !MetricComparator::Lt.holds(
            observed,
            near,
            threshold,
        ),
        MetricComparator::Gt.holds(observed, near, threshold) <==> MetricComparator::Lt.holds(
            threshold,
            near,
            observed,
        ),
        MetricComparator::Le.holds(observed, near, threshold) <==> !MetricComparator::Gt.holds(
            observed,
            near,
            threshold,
        ),
        MetricComparator::Eq.holds(observed, near, threshold) <==> near,
{
}

/// A request is answered by the first entry that answers it, and by none where
/// no entry does.
pub proof fn lemma_first_answer_counts(entries: Seq<NumberEntry>, request: RequestView)
    ensures
        forall|k: int|
            0 <= k < entries.len() && (#[trigger] entries[k]).request@ == request && (forall|i: int|
                0 <= i < k ==> (#[trigger] entries[i]).request@ != request) ==> number_of(
                entries,
                request,
            ) == opt_number(entries[k].number),
        (forall|i: int| 0 <= i < entries.len() ==> (#[trigger] entries[i]).request@ != request)
            ==> number_of(entries, request) is None,
{
    assert forall|k: int|
        0 <= k < entries.len() && (#[trigger] entries[k]).request@ == request && (forall|i: int|
            0 <= i < k ==> (#[trigger] entries[i]).request@ != request) implies number_of(
        entries,
        request,
    ) == opt_number(entries[k].number) by {
        lemma_answer_from(entries, request, 0, k);
    }
    if forall|i: int| 0 <= i < entries.len() ==> (#[trigger] entries[i]).request@ != request {
        lemma_no_answer_from(entries, request, 0);
    }
}

proof fn lemma_answer_from(entries: Seq<NumberEntry>, request: RequestView, from: int, k: int)
    requires
        0 <= from <= k < entries.len(),
        entries[k].request@ == request,
        forall|i: int| from <= i < k ==> (#[trigger] entries[i]).request@ != request,
    ensures
        number_at(entries, request, from) == opt_number(entries[k].number),
    decreases k - from,
{
    if from < k {
        lemma_answer_from(entries, request, from + 1, k);
    }
}

proof fn lemma_no_answer_from(entries: Seq<NumberEntry>, request: RequestView, from: int)
    requires
        0 <= from,
        forall|i: int| from <= i < entries.len() ==> (#[trigger] entries[i]).request@ != request,
    ensures
        number_at(entries, request, from) is None,
    decreases entries.len() - from,
{
    if from < entries.len() {
        lemma_no_answer_from(entries, request, from + 1);
    }
}

proof fn lemma_trim_end_behind(a: Seq<char>, b: Seq<char>)
    requires
        a.len() > 0,
        !is_white_space(a.last()),
    ensures
        trim_end(a + b) == a + trim_end(b),
    decreases b.len(),
{
    let s = a + b;
    if b.len() == 0 {
        assert(s =~= a);
        assert(a + trim_end(b) =~= a);
    } else {
        assert(s.last() == b.last());
        if is_white_space(b.last()) {
            assert(s.drop_last() =~= a + b.drop_last());
            lemma_trim_end_behind(a, b.drop_last());
        }
    }
}

proof fn lemma_trim_end_then_trim(s: Seq<char>)
    ensures
        trim(trim_end(s)) == trim(s),
    decreases s.len(),
{
    if s.len() > 0 && is_white_space(s.last()) {
        lemma_trim_end_then_trim(s.drop_last());
        let none = Seq::<char>::empty();
        let tail = seq![s.last()];
        lemma_trim_around(none, s.drop_last(), tail);
        assert(none + s.drop_last() + tail =~= s);
    }
}

proof fn lemma_trim_start_before(a: Seq<char>, s: Seq<char>)
    requires
        is_blank(a),
        s.len() > 0,
        !is_white_space(s[0]),
    ensures
        trim_start(a + s) == s,
    decreases a.len(),
{
    let all = a + s;
    if a.len() == 0 {
        assert(all =~= s);
    } else {
        assert(all[0] == a[0]);
        let rest = a.skip(1);
        assert forall|i: int| 0 <= i < rest.len() implies is_white_space(#[trigger] rest[i]) by {
            assert(rest[i] == a[i + 1]);
        }
        assert(all.skip(1) =~= rest + s);
        lemma_trim_start_before(rest, s);
    }
}

/// A text that is the name of a trigger in any case, a colon or an equals sign
/// behind it and then a value, has that value under that name.
pub proof fn lemma_form_is_read(
    written: Seq<char>,
    gap: Seq<char>,
    sign: char,
    value: Seq<char>,
    name: Seq<char>,
)
    requires
        written.len() > 0,
        !is_white_space(written[0]),
        eq_ignore_case(written, name),
        is_blank(gap),
        sign == ':' || sign == '=',
    ensures
        trigger_value(written + gap + seq![sign] + value, name) == Some(trim(value)),
        trim(written + gap + seq![sign] + value) == written + gap + seq![sign] + trim_end(value),
{
    let lead = written + gap + seq![sign];
    let all = lead + value;
    assert(ascii_lowercase(written).len() == written.len());
    assert(ascii_lowercase(name).len() == name.len());
    assert(all[0] == written[0]);
    assert(trim_start(all) == all);
    assert(lead.last() == sign);
    assert(!is_white_space(sign));
    lemma_trim_end_behind(lead, value);
    let text = lead + trim_end(value);
    assert(trim(all) == text);
    assert(text.take(name.len() as int) =~= written);
    let behind = seq![sign] + trim_end(value);
    assert(text.skip(name.len() as int) =~= gap + behind);
    lemma_trim_start_before(gap, behind);
    assert(behind.skip(1) =~= trim_end(value));
    lemma_trim_end_then_trim(value);
}

/// Only such a text has a value under a name.
pub proof fn lemma_form_is_needed(trigger: Seq<char>, name: Seq<char>)
    ensures
        trigger_value(trigger, name) matches Some(value) ==> exists|
            written: Seq<char>,
            gap: Seq<char>,
            sign: char,
            rest: Seq<char>,
        |
            eq_ignore_case(written, name) && is_blank(gap) && (sign == ':' || sign == '=') && trim(
                trigger,
            ) == #[trigger] (written + gap + seq![sign] + rest) && value == trim(rest),
{
    if trigger_value(trigger, name) is Some {
        let text = trim(trigger);
        let written = text.take(name.len() as int);
        let behind = text.skip(name.len() as int);
        lemma_trim(behind);
        let gap = choose|a: Seq<char>| is_blank(a) && behind == #[trigger] (a + trim_start(behind));
        let rest = trim_start(behind);
        assert(rest =~= seq![rest[0]] + rest.skip(1));
        assert(text =~= written + behind);
        assert(text =~= written + gap + seq![rest[0]] + rest.skip(1));
    }
}

proof fn lemma_other_name(text: Seq<char>, name: Seq<char>, k: int)
    requires
        0 <= k < name.len(),
        k < text.len(),
        ascii_lower(text[k]) != ascii_lower(name[k]),
        trim(text) == text,
    ensures
        trigger_value(text, name) is None,
        !eq_ignore_case(text, name),
{
    if text.len() >= name.len() {
        let start = text.take(name.len() as int);
        assert(ascii_lowercase(start)[k] == ascii_lower(text[k]));
        assert(ascii_lowercase(name)[k] == ascii_lower(name[k]));
    }
    assert(ascii_lowercase(text)[k] == ascii_lower(text[k]));
    assert(ascii_lowercase(name)[k] == ascii_lower(name[k]));
}

/// Whether a declared text has the form of a trigger: a name in any case, a
/// colon or an equals sign, and a value.
pub open spec fn is_form(declared: Seq<char>, name: Seq<char>, value: Seq<char>) -> bool {
    exists|written: Seq<char>, gap: Seq<char>, sign: char, rest: Seq<char>|
        written.len() > 0 && eq_ignore_case(written, name) && is_blank(gap) && (sign == ':' || sign
            == '=') && trim(declared) == #[trigger] (written + gap + seq![sign] + rest) && value
            == trim(rest)
}

proof fn lemma_is_form(declared: Seq<char>, name: Seq<char>, value: Seq<char>) -> (written: Seq<
    char,
>)
    requires
        is_form(declared, name, value),
        name.len() > 0,
    ensures
        trigger_value(trim(declared), name) == Some(value),
        written.len() == name.len(),
        written.len() < trim(declared).len(),
        forall|k: int|
            0 <= k < name.len() ==> #[trigger] trim(declared)[k] == written[k] && ascii_lower(
                written[k],
            ) == ascii_lower(name[k]),
        trim(trim(declared)) == trim(declared),
{
    let text = trim(declared);
    let (written, gap, sign, rest) = choose|
        written: Seq<char>,
        gap: Seq<char>,
        sign: char,
        rest: Seq<char>,
    |
        written.len() > 0 && eq_ignore_case(written, name) && is_blank(gap) && (sign == ':' || sign
            == '=') && text == #[trigger] (written + gap + seq![sign] + rest) && value == trim(
            rest,
        );
    lemma_trim(declared);
    assert(text[0] == written[0]);
    lemma_form_is_read(written, gap, sign, rest, name);
    lemma_trim_of_trimmed(text);
    assert(ascii_lowercase(written).len() == written.len());
    assert(ascii_lowercase(name).len() == name.len());
    assert forall|k: int| 0 <= k < name.len() implies #[trigger] text[k] == written[k]
        && ascii_lower(written[k]) == ascii_lower(name[k]) by {
        assert(ascii_lowercase(written)[k] == ascii_lower(written[k]));
        assert(ascii_lowercase(name)[k] == ascii_lower(name[k]));
    }
    written
}

proof fn lemma_trim_of_trimmed(text: Seq<char>)
    requires
        text.len() > 0 ==> !is_white_space(text[0]) && !is_white_space(text.last()),
    ensures
        trim(text) == text,
{
}

/// A text in the form of a regex trigger is one with the value as its pattern,
/// unless the value is empty or the pattern is wrong.
pub proof fn lemma_regex_is_read(
    declared: Seq<char>,
    value: Seq<char>,
    entries: Seq<NumberEntry>,
    refused: Option<Seq<char>>,
)
    requires
        is_form(declared, "regex"@, value),
    ensures
        value.len() > 0 && pattern_error(value, refused) is None ==> parsed_trigger(
            declared,
            entries,
            refused,
        ) == Ok::<Option<TriggerView>, Seq<char>>(
            Some(TriggerView::Regex { raw: trim(declared), pattern: value }),
        ),
        value.len() == 0 || pattern_error(value, refused) is Some ==> parsed_trigger(
            declared,
            entries,
            refused,
        ) is Err,
{
    reveal_strlit("regex");
    reveal_strlit("on_exit");
    reveal_strlit("failure_exit");
    let written = lemma_is_form(declared, "regex"@, value);
    let raw = trim(declared);
    assert(raw[0] == written[0] && ascii_lower(written[0]) == ascii_lower("regex"@[0]));
    lemma_other_name(raw, "on_exit"@, 0);
    lemma_other_name(raw, "failure_exit"@, 0);
    lemma_value_is_trimmed(declared, "regex"@, value);
}

proof fn lemma_value_is_trimmed(declared: Seq<char>, name: Seq<char>, value: Seq<char>)
    requires
        is_form(declared, name, value),
    ensures
        trim(value) == value,
{
    let rest = choose|rest: Seq<char>| value == #[trigger] trim(rest);
    lemma_trim(rest);
    lemma_trim_of_trimmed(value);
}

/// A text in the form of a silence trigger is one for the duration that the
/// value stands for.
pub proof fn lemma_silence_is_read(
    declared: Seq<char>,
    value: Seq<char>,
    entries: Seq<NumberEntry>,
    refused: Option<Seq<char>>,
)
    requires
        is_form(declared, "no_output_for"@, value),
    ensures
        parsed_trigger(declared, entries, refused) == match parsed_duration(value, entries) {
            Ok(number) => Ok::<Option<TriggerView>, Seq<char>>(
                Some(
                    TriggerView::NoOutputFor {
                        raw: trim(declared),
                        duration: number.span,
                        seconds: number.span_shown,
                    },
                ),
            ),
            Err(message) => Err(message),
        },
{
    reveal_strlit("no_output_for");
    reveal_strlit("regex");
    reveal_strlit("on_exit");
    reveal_strlit("failure_exit");
    let written = lemma_is_form(declared, "no_output_for"@, value);
    let raw = trim(declared);
    assert(raw[0] == written[0] && ascii_lower(written[0]) == ascii_lower("no_output_for"@[0]));
    lemma_other_name(raw, "on_exit"@, 0);
    lemma_other_name(raw, "failure_exit"@, 0);
    lemma_other_name(raw, "regex"@, 0);
}

/// A text in the form of a threshold trigger is one for the metric, the sign
/// and the number that the value stands for.
pub proof fn lemma_threshold_is_read(
    declared: Seq<char>,
    value: Seq<char>,
    entries: Seq<NumberEntry>,
    refused: Option<Seq<char>>,
)
    requires
        is_form(declared, "metric_threshold"@, value),
    ensures
        parsed_threshold(trim(declared), value, entries) matches Ok((metric, comparator, threshold))
            && metric_error(metric, refused) is None ==> parsed_trigger(declared, entries, refused)
            == Ok::<Option<TriggerView>, Seq<char>>(
            Some(
                TriggerView::MetricThreshold {
                    raw: trim(declared),
                    metric: (parsed_threshold(trim(declared), value, entries)->Ok_0).0,
                    comparator: (parsed_threshold(trim(declared), value, entries)->Ok_0).1,
                    threshold: (parsed_threshold(trim(declared), value, entries)->Ok_0).2,
                    pattern: metric_pattern(
                        (parsed_threshold(trim(declared), value, entries)->Ok_0).0,
                    ),
                },
            ),
        ),
        parsed_threshold(trim(declared), value, entries) is Err ==> parsed_trigger(
            declared,
            entries,
            refused,
        ) is Err,
{
    reveal_strlit("metric_threshold");
    reveal_strlit("no_output_for");
    reveal_strlit("regex");
    reveal_strlit("on_exit");
    reveal_strlit("failure_exit");
    let written = lemma_is_form(declared, "metric_threshold"@, value);
    let raw = trim(declared);
    assert(raw[0] == written[0] && ascii_lower(written[0]) == ascii_lower("metric_threshold"@[0]));
    lemma_other_name(raw, "on_exit"@, 0);
    lemma_other_name(raw, "failure_exit"@, 0);
    lemma_other_name(raw, "regex"@, 0);
    lemma_other_name(raw, "no_output_for"@, 0);
}

/// Whether none of the characters of a comparison stands in a text.
pub open spec fn has_no_sign(text: Seq<char>) -> bool {
    forall|i: int|
        0 <= i < text.len() ==> #[trigger] text[i] != '<' && text[i] != '>' && text[i] != '='
}

proof fn lemma_sign_is_found(before: Seq<char>, sign: Seq<char>, after: Seq<char>, pat: Seq<char>)
    requires
        has_no_sign(before),
        has_no_sign(after),
        sign.len() == 1 || sign.len() == 2,
        pat.len() == 1 || pat.len() == 2,
        forall|i: int|
            0 <= i < sign.len() ==> #[trigger] sign[i] == '<' || sign[i] == '>' || sign[i] == '=',
        forall|i: int|
            0 <= i < pat.len() ==> #[trigger] pat[i] == '<' || pat[i] == '>' || pat[i] == '=',
    ensures
        pat == sign ==> split_once(before + sign + after, pat) == Some((before, after)),
        pat.len() >= sign.len() && pat != sign ==> split_once(before + sign + after, pat) is None,
{
    let s = before + sign + after;
    let n = before.len() as int;
    lemma_find_from(s, pat, 0);
    assert forall|i: int| #[trigger] occurs_at(s, pat, i) && pat.len() >= sign.len() implies i == n
        && pat == sign by {
        let at = s.subrange(i, i + pat.len());
        assert(at[0] == s[i] == pat[0]);
        if i < n {
            assert(s[i] == before[i]);
        }
        if i >= n + sign.len() {
            assert(s[i] == after[i - n - sign.len()]);
        }
        if pat.len() == 2 {
            assert(at[1] == s[i + 1] == pat[1]);
            if i + 1 >= n + sign.len() {
                assert(s[i + 1] == after[i + 1 - n - sign.len()]);
            }
        }
        assert(i == n);
        assert(at =~= sign);
    }
    if pat == sign {
        assert(s.subrange(n, n + pat.len()) =~= sign);
        assert(occurs_at(s, pat, n));
        assert(find_from(s, pat, 0) == Some(n));
        assert(s.take(n) =~= before);
        assert(s.skip(n + pat.len()) =~= after);
    }
}

/// An expression that is a metric, a sign and a number compares that metric by
/// that sign with that number.
pub proof fn lemma_comparison_is_read(
    before: Seq<char>,
    comparator: MetricComparator,
    after: Seq<char>,
    raw: Seq<char>,
    entries: Seq<NumberEntry>,
)
    requires
        has_no_sign(before),
        has_no_sign(after),
    ensures
        ({
            let sign = match comparator {
                MetricComparator::Lt => "<"@,
                MetricComparator::Le => "<="@,
                MetricComparator::Gt => ">"@,
                MetricComparator::Ge => ">="@,
                MetricComparator::Eq => "=="@,
            };
            let number = number_of(entries, (trim(after), None));
            &&& first_comparison(before + sign + after) == Some((comparator, before, after))
            &&& !is_blank(before) && number is Some && is_finite(number->0.bits)
                ==> parsed_threshold(raw, before + sign + after, entries) == Ok::<
                (Seq<char>, MetricComparator, NumberView),
                Seq<char>,
            >((trim(before), comparator, number->0))
            &&& is_blank(before) || number is None || !is_finite(number->0.bits)
                ==> parsed_threshold(raw, before + sign + after, entries) is Err
        }),
{
    reveal_strlit("<");
    reveal_strlit("<=");
    reveal_strlit(">");
    reveal_strlit(">=");
    reveal_strlit("==");
    let sign = match comparator {
        MetricComparator::Lt => "<"@,
        MetricComparator::Le => "<="@,
        MetricComparator::Gt => ">"@,
        MetricComparator::Ge => ">="@,
        MetricComparator::Eq => "=="@,
    };
    assert("<="@ != ">="@) by {
        assert("<="@[0] != ">="@[0]);
    }
    assert("<="@ != "=="@) by {
        assert("<="@[0] != "=="@[0]);
    }
    assert(">="@ != "=="@) by {
        assert(">="@[0] != "=="@[0]);
    }
    assert("<"@ != ">"@) by {
        assert("<"@[0] != ">"@[0]);
    }
    assert("<"@.len() == 1 && ">"@.len() == 1);
    assert("<="@.len() == 2 && ">="@.len() == 2 && "=="@.len() == 2);
    lemma_sign_is_found(before, sign, after, "<="@);
    lemma_sign_is_found(before, sign, after, ">="@);
    lemma_sign_is_found(before, sign, after, "=="@);
    lemma_sign_is_found(before, sign, after, "<"@);
    lemma_sign_is_found(before, sign, after, ">"@);
    lemma_trim_blank(before);
}

/// The words for each unit of time; without a word, seconds are meant.
pub proof fn lemma_units_by_word(word: Seq<char>)
    ensures
        unit_of(word) == Some(DurationUnit::Seconds) <==> word.len() == 0 || word == "s"@ || word
            == "sec"@ || word == "secs"@ || word == "second"@ || word == "seconds"@,
        unit_of(word) == Some(DurationUnit::Minutes) <==> word == "m"@ || word == "min"@ || word
            == "mins"@ || word == "minute"@ || word == "minutes"@,
        unit_of(word) == Some(DurationUnit::Hours) <==> word == "h"@ || word == "hr"@ || word
            == "hrs"@ || word == "hour"@ || word == "hours"@,
        unit_of(word) == Some(DurationUnit::Milliseconds) <==> word == "ms"@ || word
            == "millisecond"@ || word == "milliseconds"@,
{
    reveal_strlit("");
    reveal_strlit("s");
    reveal_strlit("sec");
    reveal_strlit("secs");
    reveal_strlit("second");
    reveal_strlit("seconds");
    reveal_strlit("m");
    reveal_strlit("min");
    reveal_strlit("mins");
    reveal_strlit("minute");
    reveal_strlit("minutes");
    reveal_strlit("h");
    reveal_strlit("hr");
    reveal_strlit("hrs");
    reveal_strlit("hour");
    reveal_strlit("hours");
    reveal_strlit("ms");
    reveal_strlit("millisecond");
    reveal_strlit("milliseconds");
    if word.len() == 0 {
        assert(word =~= ""@);
    }
    assert("s"@[0] == 's' && "sec"@[0] == 's' && "secs"@[0] == 's' && "second"@[0] == 's'
        && "seconds"@[0] == 's');
    assert("m"@[0] == 'm' && "min"@[0] == 'm' && "mins"@[0] == 'm' && "minute"@[0] == 'm'
        && "minutes"@[0] == 'm');
    assert("h"@[0] == 'h' && "hr"@[0] == 'h' && "hrs"@[0] == 'h' && "hour"@[0] == 'h'
        && "hours"@[0] == 'h');
    assert("ms"@[0] == 'm' && "millisecond"@[0] == 'm' && "milliseconds"@[0] == 'm');
    assert("m"@.len() == 1 && "ms"@.len() == 2 && "min"@.len() == 3 && "mins"@.len() == 4);
    assert("minute"@.len() == 6 && "minutes"@.len() == 7);
    assert("millisecond"@.len() == 11 && "milliseconds"@.len() == 12);
}

proof fn lemma_amount_end(value: Seq<char>, from: int, k: int)
    requires
        0 <= from <= k <= value.len(),
        forall|i: int|
            from <= i < k ==> '0' <= #[trigger] value[i] <= '9' || value[i] == '.',
        k < value.len() ==> !('0' <= value[k] <= '9') && value[k] != '.',
    ensures
        amount_end(value, from) == k,
    decreases k - from,
{
    if from < k {
        lemma_amount_end(value, from + 1, k);
    }
}

/// A duration is digits and dots, and behind them a unit in any case; without
/// one, seconds are meant.
pub proof fn lemma_duration_is_read(amount: Seq<char>, unit: Seq<char>)
    requires
        forall|i: int|
            0 <= i < amount.len() ==> '0' <= #[trigger] amount[i] <= '9' || amount[i] == '.',
        unit.len() > 0 ==> !('0' <= unit[0] <= '9') && unit[0] != '.',
    ensures
        duration_request(amount + unit) == (trim(amount), unit_of(ascii_lowercase(trim(unit)))),
{
    let value = amount + unit;
    assert forall|i: int| 0 <= i < amount.len() implies '0' <= #[trigger] value[i] <= '9'
        || value[i] == '.' by {
        assert(value[i] == amount[i]);
    }
    if unit.len() > 0 {
        assert(value[amount.len() as int] == unit[0]);
    }
    lemma_amount_end(value, 0, amount.len() as int);
    assert(value.take(amount.len() as int) =~= amount);
    assert(value.skip(amount.len() as int) =~= unit);
}

/// A duration is accepted exactly where it is a finite number above zero of a
/// known unit; it then lasts as long as the host makes of that.
pub proof fn lemma_duration_is_accepted(text: Seq<char>, entries: Seq<NumberEntry>)
    ensures
        ({
            let request = duration_request(trim(text));
            let number = number_of(entries, request);
            &&& parsed_duration(text, entries) is Ok <==> !is_blank(text) && number is Some
                && is_finite(number->0.bits) && is_less(0, number->0.bits) && request.1 is Some
            &&& parsed_duration(text, entries) matches Ok(found) ==> number == Some(found)
        }),
{
    lemma_trim_blank(text);
}

/// Whether an option gives a value for a name: the name in any case, an equals
/// sign, and the value.
pub open spec fn gives(part: Seq<char>, name: Seq<char>, value: Seq<char>) -> bool {
    exists|key: Seq<char>, text: Seq<char>|
        part == #[trigger] (key + seq!['='] + text) && !key.contains('=') && ascii_lowercase(
            trim(key),
        ) == name && value == trim(text)
}

proof fn lemma_option_parts(part: Seq<char>)
    ensures
        split_once(part, "="@) matches Some((key, text)) ==> part == key + seq!['='] + text,
{
    reveal_strlit("=");
    assert("="@ =~= seq!['=']);
    lemma_find_from(part, "="@, 0);
    if find_from(part, "="@, 0) is Some {
        let k = find_from(part, "="@, 0)->0;
        assert(part.subrange(k, k + 1)[0] == '=');
        assert(part =~= part.take(k) + seq!['='] + part.skip(k + 1));
    }
}

proof fn lemma_option_key(part: Seq<char>)
    ensures
        split_once(part, "="@) matches Some((key, text)) ==> !key.contains('='),
{
    reveal_strlit("=");
    lemma_find_from(part, "="@, 0);
    if find_from(part, "="@, 0) is Some {
        let k = find_from(part, "="@, 0)->0;
        let key = part.take(k);
        if key.contains('=') {
            let i = choose|i: int| 0 <= i < key.len() && key[i] == '=';
            assert(part.subrange(i, i + 1) =~= "="@);
            assert(occurs_at(part, "="@, i));
        }
    }
}

proof fn lemma_option_split(part: Seq<char>, key: Seq<char>, text: Seq<char>)
    requires
        part == key + seq!['='] + text,
        !key.contains('='),
    ensures
        split_once(part, "="@) == Some((key, text)),
{
    reveal_strlit("=");
    lemma_find_from(part, "="@, 0);
    let n = key.len() as int;
    assert(part.subrange(n, n + 1) =~= "="@);
    assert(occurs_at(part, "="@, n));
    let k = find_from(part, "="@, 0)->0;
    assert(part.subrange(k, k + 1)[0] == '=');
    if k < n {
        assert(key[k] == '=');
    }
    assert(part.take(n) =~= key);
    assert(part.skip(n + 1) =~= text);
}

proof fn lemma_gives(part: Seq<char>, name: Seq<char>, value: Seq<char>)
    ensures
        gives(part, name, value) <==> (split_once(part, "="@) is Some && ascii_lowercase(
            trim((split_once(part, "="@)->0).0),
        ) == name && value == trim((split_once(part, "="@)->0).1)),
{
    lemma_option_parts(part);
    lemma_option_key(part);
    if split_once(part, "="@) is Some {
        let (key, text) = split_once(part, "="@)->0;
        assert(part == key + seq!['='] + text);
    }
    if gives(part, name, value) {
        let (key, text) = choose|key: Seq<char>, text: Seq<char>|
            part == #[trigger] (key + seq!['='] + text) && !key.contains('=') && ascii_lowercase(
                trim(key),
            ) == name && value == trim(text);
        lemma_option_split(part, key, text);
    }
}

/// Whether an option is one that can stand.
pub open spec fn is_right_option(part: Seq<char>, entries: Seq<NumberEntry>) -> bool {
    exists|value: Seq<char>|
        {
            ||| #[trigger] gives(part, "patience"@, value) && (usize_value(value) matches Some(
                patience,
            ) && patience > 0)
            ||| gives(part, "min_delta"@, value) && (number_of(entries, (value, None)) matches Some(
                number,
            ) && is_finite(number.bits) && is_at_most(0, number.bits))
            ||| gives(part, "mode"@, value) && (ascii_lowercase(value) == "min"@
                || ascii_lowercase(value) == "max"@)
        }
}

proof fn lemma_option_step(
    options: PlateauOptions,
    raw: Seq<char>,
    part: Seq<char>,
    entries: Seq<NumberEntry>,
)
    ensures
        with_option(options, raw, part, entries) is Ok <==> is_right_option(part, entries),
        with_option(options, raw, part, entries) matches Ok(after) ==> {
            &&& forall|value: Seq<char>| #[trigger]
                gives(part, "patience"@, value) ==> usize_value(value) == Some(after.patience)
                    && after.patience > 0
            &&& forall|value: Seq<char>| #[trigger]
                gives(part, "min_delta"@, value) ==> number_of(entries, (value, None)) is Some
                    && number_of(entries, (value, None))->0.bits == after.min_delta
            &&& forall|value: Seq<char>| #[trigger]
                gives(part, "mode"@, value) ==> (after.mode == PlateauMode::Min <==> ascii_lowercase(
                    value,
                ) == "min"@) && (after.mode == PlateauMode::Max <==> ascii_lowercase(value)
                    == "max"@)
            &&& (forall|value: Seq<char>| !#[trigger] gives(part, "patience"@, value))
                ==> after.patience == options.patience
            &&& (forall|value: Seq<char>| !#[trigger] gives(part, "min_delta"@, value))
                ==> after.min_delta == options.min_delta
            &&& (forall|value: Seq<char>| !#[trigger] gives(part, "mode"@, value)) ==> after.mode
                == options.mode
        },
{
    reveal_strlit("patience");
    reveal_strlit("min_delta");
    reveal_strlit("mode");
    reveal_strlit("min");
    reveal_strlit("max");
    assert("patience"@.len() == 8 && "min_delta"@.len() == 9 && "mode"@.len() == 4);
    assert("min"@[1] != "max"@[1]);
    assert forall|name: Seq<char>, value: Seq<char>| #[trigger]
        gives(part, name, value) <==> (split_once(part, "="@) is Some && ascii_lowercase(
            trim((split_once(part, "="@)->0).0),
        ) == name && value == trim((split_once(part, "="@)->0).1)) by {
        lemma_gives(part, name, value);
    }
    if split_once(part, "="@) is Some {
        let (key, text) = split_once(part, "="@)->0;
        let value = trim(text);
        assert(gives(part, ascii_lowercase(trim(key)), value));
        let said = gives(part, "patience"@, value);
        if with_option(options, raw, part, entries) is Ok {
            assert(is_right_option(part, entries));
        }
    }
    if is_right_option(part, entries) {
        assert(split_once(part, "="@) is Some);
        let value = trim((split_once(part, "="@)->0).1);
        if gives(part, "patience"@, value) {
            assert(with_option(options, raw, part, entries) is Ok);
        } else if gives(part, "min_delta"@, value) {
            assert(with_option(options, raw, part, entries) is Ok);
        } else {
            assert(with_option(options, raw, part, entries) is Ok);
        }
    }
}

/// Whether the options from one on say nothing of a name.
pub open spec fn says_nothing(parts: Seq<Seq<char>>, from: int, name: Seq<char>) -> bool {
    forall|i: int, value: Seq<char>|
        from <= i < parts.len() ==> !#[trigger] gives(parts[i], name, value)
}

/// The options are accepted exactly where each of them can stand. The last one
/// of a name counts; where there is none, a patience of ten, no least
/// difference and less being better are meant.
pub proof fn lemma_last_option_counts(
    raw: Seq<char>,
    parts: Seq<Seq<char>>,
    entries: Seq<NumberEntry>,
)
    ensures
        parsed_options(raw, parts, entries) is Ok <==> forall|i: int|
            0 <= i < parts.len() ==> is_right_option(#[trigger] parts[i], entries),
        parsed_options(raw, parts, entries) matches Ok(options) ==> {
            &&& forall|i: int, value: Seq<char>|
                0 <= i < parts.len() && #[trigger] gives(parts[i], "patience"@, value)
                    && says_nothing(parts, i + 1, "patience"@) ==> usize_value(value) == Some(
                    options.patience,
                )
            &&& says_nothing(parts, 0, "patience"@) ==> options.patience == 10
            &&& options.patience > 0
            &&& forall|i: int, value: Seq<char>|
                0 <= i < parts.len() && #[trigger] gives(parts[i], "min_delta"@, value)
                    && says_nothing(parts, i + 1, "min_delta"@) ==> number_of(
                    entries,
                    (value, None),
                ) is Some && number_of(entries, (value, None))->0.bits == options.min_delta
            &&& says_nothing(parts, 0, "min_delta"@) ==> options.min_delta == 0
            &&& forall|i: int, value: Seq<char>|
                0 <= i < parts.len() && #[trigger] gives(parts[i], "mode"@, value) && says_nothing(
                    parts,
                    i + 1,
                    "mode"@,
                ) ==> (options.mode == PlateauMode::Min <==> ascii_lowercase(value) == "min"@) && (
                options.mode == PlateauMode::Max <==> ascii_lowercase(value) == "max"@)
            &&& says_nothing(parts, 0, "mode"@) ==> options.mode == PlateauMode::Min
        },
    decreases parts.len(),
{
    if parts.len() > 0 {
        let rest = parts.drop_last();
        let n = rest.len() as int;
        lemma_last_option_counts(raw, rest, entries);
        assert(forall|i: int| 0 <= i < n ==> rest[i] == #[trigger] parts[i]);
        assert(parts[n] == parts.last());
        if parsed_options(raw, rest, entries) is Ok {
            let options = parsed_options(raw, rest, entries)->Ok_0;
            lemma_option_step(options, raw, parts.last(), entries);
            lemma_says_nothing(parts, "patience"@);
            lemma_says_nothing(parts, "min_delta"@);
            lemma_says_nothing(parts, "mode"@);
            assert forall|i: int| 0 <= i < n implies is_right_option(#[trigger] parts[i], entries) by {
                assert(is_right_option(rest[i], entries));
            }
            if parsed_options(raw, parts, entries) is Ok {
                let after = parsed_options(raw, parts, entries)->Ok_0;
                assert forall|i: int, value: Seq<char>|
                    0 <= i < parts.len() && #[trigger] gives(parts[i], "patience"@, value)
                        && says_nothing(parts, i + 1, "patience"@) implies usize_value(value)
                    == Some(after.patience) by {
                    lemma_given_before(parts, i, value, "patience"@);
                }
                assert forall|i: int, value: Seq<char>|
                    0 <= i < parts.len() && #[trigger] gives(parts[i], "min_delta"@, value)
                        && says_nothing(parts, i + 1, "min_delta"@) implies number_of(
                    entries,
                    (value, None),
                ) is Some && number_of(entries, (value, None))->0.bits == after.min_delta by {
                    lemma_given_before(parts, i, value, "min_delta"@);
                }
                assert forall|i: int, value: Seq<char>|
                    0 <= i < parts.len() && #[trigger] gives(parts[i], "mode"@, value)
                        && says_nothing(parts, i + 1, "mode"@) implies (after.mode
                    == PlateauMode::Min <==> ascii_lowercase(value) == "min"@) && (after.mode
                    == PlateauMode::Max <==> ascii_lowercase(value) == "max"@) by {
                    lemma_given_before(parts, i, value, "mode"@);
                }
                if exists|value: Seq<char>| #[trigger] gives(parts[n], "patience"@, value) {
                } else {
                    assert(after.patience == options.patience);
                }
            }
        } else {
            let i = choose|i: int| 0 <= i < n && !is_right_option(#[trigger] rest[i], entries);
            assert(!is_right_option(parts[i], entries));
        }
    }
}

proof fn lemma_says_nothing(parts: Seq<Seq<char>>, name: Seq<char>)
    requires
        parts.len() > 0,
    ensures
        says_nothing(parts, 0, name) ==> says_nothing(parts.drop_last(), 0, name) && forall|
            value: Seq<char>,
        |
            !#[trigger] gives(parts.last(), name, value),
{
    let rest = parts.drop_last();
    let n = rest.len() as int;
    if says_nothing(parts, 0, name) {
        assert forall|value: Seq<char>| !#[trigger] gives(parts.last(), name, value) by {
            assert(parts[n] == parts.last());
            assert(!gives(parts[n], name, value));
        }
        assert forall|i: int, value: Seq<char>| 0 <= i < rest.len() implies !#[trigger] gives(
            rest[i],
            name,
            value,
        ) by {
            assert(!gives(parts[i], name, value));
        }
    }
}

proof fn lemma_given_before(parts: Seq<Seq<char>>, i: int, value: Seq<char>, name: Seq<char>)
    requires
        0 <= i < parts.len(),
        gives(parts[i], name, value),
        says_nothing(parts, i + 1, name),
    ensures
        i < parts.len() - 1 ==> gives(parts.drop_last()[i], name, value) && says_nothing(
            parts.drop_last(),
            i + 1,
            name,
        ) && forall|v: Seq<char>| !#[trigger] gives(parts.last(), name, v),
        i == parts.len() - 1 ==> gives(parts.last(), name, value),
{
    let rest = parts.drop_last();
    let n = rest.len() as int;
    if i < n {
        assert forall|v: Seq<char>| !#[trigger] gives(parts.last(), name, v) by {
            assert(parts[n] == parts.last());
            assert(!gives(parts[n], name, v));
        }
        assert forall|j: int, v: Seq<char>| i + 1 <= j < rest.len() implies !#[trigger] gives(
            rest[j],
            name,
            v,
        ) by {
            assert(!gives(parts[j], name, v));
        }
    }
}

/// A plateau trigger watches the first word; the words behind it are its
/// options.
pub proof fn lemma_plateau_is_read(
    declared: Seq<char>,
    value: Seq<char>,
    entries: Seq<NumberEntry>,
    refused: Option<Seq<char>>,
)
    requires
        is_form(declared, "plateau"@, value) || is_form(declared, "metric_plateau"@, value),
    ensures
        ({
            let parts = words(value);
            let options = parsed_options(trim(declared), parts.skip(1), entries);
            &&& parts.len() > 0 && options is Ok && metric_error(parts[0], refused) is None
                ==> parsed_trigger(declared, entries, refused) == Ok::<
                Option<TriggerView>,
                Seq<char>,
            >(
                Some(
                    TriggerView::Plateau {
                        raw: trim(declared),
                        metric: parts[0],
                        patience: options->Ok_0.patience,
                        min_delta: options->Ok_0.min_delta,
                        mode: options->Ok_0.mode,
                        pattern: metric_pattern(parts[0]),
                    },
                ),
            )
            &&& parts.len() == 0 || options is Err || metric_error(parts[0], refused) is Some
                ==> parsed_trigger(declared, entries, refused) is Err
        }),
{
    reveal_strlit("plateau");
    reveal_strlit("metric_plateau");
    reveal_strlit("metric_threshold");
    reveal_strlit("no_output_for");
    reveal_strlit("regex");
    reveal_strlit("on_exit");
    reveal_strlit("failure_exit");
    let raw = trim(declared);
    if is_form(declared, "plateau"@, value) {
        let written = lemma_is_form(declared, "plateau"@, value);
        assert(raw[0] == written[0] && ascii_lower(written[0]) == ascii_lower("plateau"@[0]));
        lemma_other_name(raw, "metric_threshold"@, 0);
        lemma_other_name(raw, "metric_plateau"@, 0);
    } else {
        let written = lemma_is_form(declared, "metric_plateau"@, value);
        assert(raw[0] == written[0] && ascii_lower(written[0]) == ascii_lower(
            "metric_plateau"@[0],
        ));
        assert(raw[7] == written[7] && ascii_lower(written[7]) == ascii_lower(
            "metric_plateau"@[7],
        ));
        lemma_other_name(raw, "metric_threshold"@, 7);
    }
    lemma_other_name(raw, "on_exit"@, 0);
    lemma_other_name(raw, "failure_exit"@, 0);
    lemma_other_name(raw, "regex"@, 0);
    lemma_other_name(raw, "no_output_for"@, 0);
}

/// Whether the chosen positions are those of the texts that stand for a
/// trigger.
pub open spec fn chooses_triggers(
    at: Seq<int>,
    declared: Seq<Seq<char>>,
    entries: Seq<NumberEntry>,
    refused: Seq<Option<Seq<char>>>,
) -> bool {
    is_choice(
        at,
        declared.len() as int,
        |i: int| parsed_trigger(declared[i], entries, refused[i]) matches Ok(Some(_)),
    )
}

proof fn lemma_trigger_places(
    declared: Seq<Seq<char>>,
    entries: Seq<NumberEntry>,
    refused: Seq<Option<Seq<char>>>,
) -> (at: Seq<int>)
    ensures
        parsed_triggers(declared, entries, refused) matches Ok(triggers) ==> {
            &&& chooses_triggers(at, declared, entries, refused)
            &&& triggers.len() == at.len()
            &&& forall|j: int|
                0 <= j < at.len() ==> parsed_trigger(
                    declared[#[trigger] at[j]],
                    entries,
                    refused[at[j]],
                ) == Ok::<Option<TriggerView>, Seq<char>>(Some(triggers[j]))
            &&& forall|i: int|
                0 <= i < declared.len() ==> parsed_trigger(
                    #[trigger] declared[i],
                    entries,
                    refused[i],
                ) is Ok
        },
        parsed_triggers(declared, entries, refused) matches Err(message) ==> exists|k: int|
            0 <= k < declared.len() && parsed_trigger(#[trigger] declared[k], entries, refused[k])
                == Err::<Option<TriggerView>, Seq<char>>(message) && forall|i: int|
                0 <= i < k ==> parsed_trigger(#[trigger] declared[i], entries, refused[i]) is Ok,
    decreases declared.len(),
{
    let chosen = |i: int| parsed_trigger(declared[i], entries, refused[i]) matches Ok(Some(_));
    if declared.len() == 0 {
        lemma_no_choice(chosen);
        Seq::empty()
    } else {
        let rest = declared.drop_last();
        let n = rest.len() as int;
        let at = lemma_trigger_places(rest, entries, refused);
        assert(declared[n] == declared.last());
        assert(forall|i: int| 0 <= i < n ==> rest[i] == #[trigger] declared[i]);
        if parsed_triggers(rest, entries, refused) is Ok {
            let known = |i: int|
                parsed_trigger(rest[i], entries, refused[i]) matches Ok(Some(_));
            assert forall|i: int| 0 <= i < n implies #[trigger] known(i) == chosen(i) by {
                assert(rest[i] == declared[i]);
            }
            lemma_same_choice(at, n, known, chosen);
            lemma_choice_step(at, n, chosen);
            assert forall|i: int| 0 <= i < n implies parsed_trigger(
                #[trigger] declared[i],
                entries,
                refused[i],
            ) is Ok by {
                assert(rest[i] == declared[i]);
            }
            if parsed_triggers(declared, entries, refused) is Err {
                assert(parsed_trigger(declared[n], entries, refused[n]) is Err);
            }
            if chosen(n) {
                at.push(n)
            } else {
                at
            }
        } else {
            let message = parsed_triggers(rest, entries, refused)->Err_0;
            let k = choose|k: int|
                0 <= k < rest.len() && parsed_trigger(#[trigger] rest[k], entries, refused[k])
                    == Err::<Option<TriggerView>, Seq<char>>(message) && forall|i: int|
                    0 <= i < k ==> parsed_trigger(#[trigger] rest[i], entries, refused[i]) is Ok;
            assert(declared[k] == rest[k]);
            assert forall|i: int| 0 <= i < k implies parsed_trigger(
                #[trigger] declared[i],
                entries,
                refused[i],
            ) is Ok by {
                assert(rest[i] == declared[i]);
            }
            at
        }
    }
}

/// The triggers are those of every text that stands for one, in order; where a
/// text is wrong, what is wrong with the first such text is told instead.
pub proof fn lemma_every_trigger_is_kept(
    declared: Seq<Seq<char>>,
    entries: Seq<NumberEntry>,
    refused: Seq<Option<Seq<char>>>,
)
    ensures
        parsed_triggers(declared, entries, refused) matches Ok(triggers) ==> exists|at: Seq<int>|
            {
                &&& #[trigger] chooses_triggers(at, declared, entries, refused)
                &&& triggers.len() == at.len()
                &&& forall|j: int|
                    0 <= j < at.len() ==> parsed_trigger(
                        declared[#[trigger] at[j]],
                        entries,
                        refused[at[j]],
                    ) == Ok::<Option<TriggerView>, Seq<char>>(Some(triggers[j]))
            },
        parsed_triggers(declared, entries, refused) matches Err(message) ==> exists|k: int|
            0 <= k < declared.len() && parsed_trigger(#[trigger] declared[k], entries, refused[k])
                == Err::<Option<TriggerView>, Seq<char>>(message) && forall|i: int|
                0 <= i < k ==> parsed_trigger(#[trigger] declared[i], entries, refused[i]) is Ok,
{
    let at = lemma_trigger_places(declared, entries, refused);
}

/// A metric is found by its name, whatever its case and with the characters
/// that have a meaning of their own escaped, as a whole word before a colon or
/// an equals sign and a decimal number.
pub proof fn lemma_metric_is_found_by_name(metric: Seq<char>)
    ensures
        metric_pattern(metric) == r"(?i)\b"@ + escaped(trim(metric))
            + r"\b\s*[:=]\s*([-+]?(?:\d+(?:\.\d*)?|\.\d+)(?:[eE][-+]?\d+)?)"@,
        is_blank(metric) ==> metric_error(metric, None) is Some,
        !is_blank(metric) ==> metric_error(metric, None) == match regex_syntax_error(
            metric_pattern(metric),
        ) {
            Some(message) => Some(
                "failed to compile metric parser for `"@ + metric + "`: "@ + message,
            ),
            None => None,
        },
{
}

/// A text that is blank or names the end of the command stands for no trigger.
pub proof fn lemma_exits_are_passed_over(
    declared: Seq<char>,
    entries: Seq<NumberEntry>,
    refused: Option<Seq<char>>,
)
    requires
        is_blank(declared) || eq_ignore_case(trim(declared), "on_exit"@) || eq_ignore_case(
            trim(declared),
            "failure_exit"@,
        ),
    ensures
        parsed_trigger(declared, entries, refused) == Ok::<Option<TriggerView>, Seq<char>>(None),
{
    lemma_trim_blank(declared);
}

} // verus!
