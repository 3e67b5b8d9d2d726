//! Reading of all the triggers that a background command declares.

use vstd::prelude::*;

use crate::numbers::{
    answer_requests, answers, number_of, DurationUnit, Number, NumberEntry, NumberRequest,
    RequestView,
};
use crate::search::{split_once, split_once_chars};
use crate::split::{split_white_space, words};
use crate::text::{
    ascii_lowercase, char_texts, from_chars, lowercase_chars, owned, str_eq, str_eq_ignore_case,
    texts, to_chars, trim, trim_chars, trimmed,
};
use crate::trigger_policy::{
    duration_request, first_comparison, has_accepted_metric, is_accepted, is_accepted_pattern,
    is_passed_over, leads_with_accepted_metric, parse_duration, parsed_metric_threshold,
    parsed_options, parsed_plateau, parsed_regex, parsed_trigger, parsed_triggers, request_duration,
    some_trigger, split_comparison, strip_trigger_prefix, trigger_value, with_option,
    BackgroundTriggerSpec, MetricThresholdTriggerSpec, NoOutputForTriggerSpec, PlateauTriggerSpec,
    RegexTriggerSpec, TriggerView,
};

verus! {

/// The triggers of a background command.
pub struct BackgroundTriggerPolicy {
    pub triggers: Vec<BackgroundTriggerSpec>,
}

/// The views of a list of triggers.
pub open spec fn trigger_views(triggers: Seq<BackgroundTriggerSpec>) -> Seq<TriggerView> {
    Seq::new(triggers.len(), |i: int| triggers[i]@)
}

/// What came of one declared text.
pub open spec fn trigger_said(r: Result<Option<BackgroundTriggerSpec>, String>) -> Result<
    Option<TriggerView>,
    Seq<char>,
> {
    match r {
        Ok(Some(trigger)) => Ok(Some(trigger@)),
        Ok(None) => Ok(None),
        Err(message) => Err(message@),
    }
}

/// What came of all declared texts; no policy stands for no trigger.
pub open spec fn policy_said(r: Result<Option<BackgroundTriggerPolicy>, String>) -> Result<
    Seq<TriggerView>,
    Seq<char>,
> {
    match r {
        Ok(Some(policy)) => Ok(trigger_views(policy.triggers@)),
        Ok(None) => Ok(Seq::empty()),
        Err(message) => Err(message@),
    }
}

/// The number that an option of a plateau trigger asks for.
pub open spec fn option_requests(part: Seq<char>) -> Seq<RequestView> {
    match split_once(part, "="@) {
        Some((key, text)) => if ascii_lowercase(trim(key)) == "min_delta"@ {
            seq![(trim(text), None)]
        } else {
            Seq::empty()
        },
        None => Seq::empty(),
    }
}

/// The numbers that the options of a plateau trigger ask for.
pub open spec fn plateau_requests(parts: Seq<Seq<char>>) -> Seq<RequestView>
    decreases parts.len(),
{
    if parts.len() == 0 {
        Seq::empty()
    } else {
        plateau_requests(parts.drop_last()) + option_requests(parts.last())
    }
}

/// The number that a threshold asks for.
pub open spec fn threshold_requests(expression: Seq<char>) -> Seq<RequestView> {
    match first_comparison(expression) {
        Some((comparator, before, after)) => seq![(trim(after), None)],
        None => Seq::empty(),
    }
}

/// The numbers that a declared text asks for.
pub open spec fn trigger_requests(declared: Seq<char>) -> Seq<RequestView> {
    let raw = trim(declared);
    if is_passed_over(raw) || trigger_value(raw, "regex"@) is Some {
        Seq::empty()
    } else if trigger_value(raw, "no_output_for"@) is Some {
        seq![duration_request(trim(trigger_value(raw, "no_output_for"@)->0))]
    } else if trigger_value(raw, "metric_threshold"@) is Some {
        threshold_requests(trigger_value(raw, "metric_threshold"@)->0)
    } else if trigger_value(raw, "metric_plateau"@) is Some {
        plateau_requests(words(trigger_value(raw, "metric_plateau"@)->0))
    } else if trigger_value(raw, "plateau"@) is Some {
        plateau_requests(words(trigger_value(raw, "plateau"@)->0))
    } else {
        Seq::empty()
    }
}

/// The numbers that the declared texts ask for.
pub open spec fn all_requests(declared: Seq<Seq<char>>) -> Seq<RequestView>
    decreases declared.len(),
{
    if declared.len() == 0 {
        Seq::empty()
    } else {
        all_requests(declared.drop_last()) + trigger_requests(declared.last())
    }
}

/// What a list of requests asks for.
pub open spec fn request_views(requests: Seq<NumberRequest>) -> Seq<RequestView> {
    Seq::new(requests.len(), |i: int| requests[i]@)
}

fn passed_over(raw: &str) -> (r: bool)
    ensures
        r == is_passed_over(raw@),
{
    raw.is_empty() || str_eq_ignore_case(raw, "on_exit") || str_eq_ignore_case(raw, "failure_exit")
}

fn parse_plateau(raw: &str, expression: &str, entries: &Vec<NumberEntry>) -> (r: Result<
    Option<BackgroundTriggerSpec>,
    String,
>)
    ensures
        exists|refused: Option<Seq<char>>|
            (leads_with_accepted_metric(expression@) ==> refused is None) && some_trigger(
                #[trigger] parsed_plateau(raw@, expression@, entries@, refused),
            ) == trigger_said(r),
{
    match PlateauTriggerSpec::new(raw, expression, entries) {
        Ok(spec) => Ok(Some(BackgroundTriggerSpec::Plateau(spec))),
        Err(message) => Err(message),
    }
}

/// Reads one declared text.
pub fn parse_trigger(declared: &str, entries: &Vec<NumberEntry>) -> (r: Result<
    Option<BackgroundTriggerSpec>,
    String,
>)
    ensures
        exists|refused: Option<Seq<char>>|
            (is_accepted(declared@) ==> refused is None) && #[trigger] parsed_trigger(
                declared@,
                entries@,
                refused,
            ) == trigger_said(r),
{
    let raw = trimmed(declared);
    let raw: &str = raw.as_str();
    if passed_over(raw) {
        assert(parsed_trigger(declared@, entries@, None) == Ok::<
            Option<TriggerView>,
            Seq<char>,
        >(None));
        return Ok(None);
    }
    if let Some(pattern) = strip_trigger_prefix(raw, "regex") {
        let r = match RegexTriggerSpec::new(raw, pattern.as_str()) {
            Ok(spec) => Ok(Some(BackgroundTriggerSpec::Regex(spec))),
            Err(message) => Err(message),
        };
        proof {
            let refused = choose|refused: Option<Seq<char>>|
                (is_accepted_pattern(pattern@) ==> refused is None) && some_trigger(
                    #[trigger] parsed_regex(raw@, pattern@, refused),
                ) == trigger_said(r);
            assert(parsed_trigger(declared@, entries@, refused) == trigger_said(r));
        }
        return r;
    }
    if let Some(duration) = strip_trigger_prefix(raw, "no_output_for") {
        let r = match parse_duration(duration.as_str(), entries) {
            Ok(number) => Ok(
                Some(
                    BackgroundTriggerSpec::NoOutputFor(
                        NoOutputForTriggerSpec {
                            raw: owned(raw),
                            duration: number.span,
                            seconds: number.span_shown,
                        },
                    ),
                ),
            ),
            Err(message) => Err(message),
        };
        assert(parsed_trigger(declared@, entries@, None) == trigger_said(r));
        return r;
    }
    if let Some(expression) = strip_trigger_prefix(raw, "metric_threshold") {
        let r = match MetricThresholdTriggerSpec::new(raw, expression.as_str(), entries) {
            Ok(spec) => Ok(Some(BackgroundTriggerSpec::MetricThreshold(spec))),
            Err(message) => Err(message),
        };
        proof {
            let refused = choose|refused: Option<Seq<char>>|
                (has_accepted_metric(expression@) ==> refused is None) && some_trigger(
                    #[trigger] parsed_metric_threshold(raw@, expression@, entries@, refused),
                ) == trigger_said(r);
            assert(parsed_trigger(declared@, entries@, refused) == trigger_said(r));
        }
        return r;
    }
    if let Some(expression) = strip_trigger_prefix(raw, "metric_plateau") {
        let r = parse_plateau(raw, expression.as_str(), entries);
        proof {
            let refused = choose|refused: Option<Seq<char>>|
                (leads_with_accepted_metric(expression@) ==> refused is None) && some_trigger(
                    #[trigger] parsed_plateau(raw@, expression@, entries@, refused),
                ) == trigger_said(r);
            assert(parsed_trigger(declared@, entries@, refused) == trigger_said(r));
        }
        return r;
    }
    if let Some(expression) = strip_trigger_prefix(raw, "plateau") {
        let r = parse_plateau(raw, expression.as_str(), entries);
        proof {
            let refused = choose|refused: Option<Seq<char>>|
                (leads_with_accepted_metric(expression@) ==> refused is None) && some_trigger(
                    #[trigger] parsed_plateau(raw@, expression@, entries@, refused),
                ) == trigger_said(r);
            assert(parsed_trigger(declared@, entries@, refused) == trigger_said(r));
        }
        return r;
    }
    assert(parsed_trigger(declared@, entries@, None) == Ok::<Option<TriggerView>, Seq<char>>(None));
    Ok(None)
}

fn collect_option_requests(part: &[char], requests: &mut Vec<NumberRequest>)
    ensures
        request_views(final(requests)@) == request_views(old(requests)@) + option_requests(part@),
{
    let ghost before = requests@;
    let sign = to_chars("=");
    if let Some((key, text)) = split_once_chars(part, sign.as_slice()) {
        let name = lowercase_chars(trim_chars(key.as_slice()).as_slice());
        let name = from_chars(name.as_slice());
        if str_eq(name.as_str(), "min_delta") {
            let text = from_chars(trim_chars(text.as_slice()).as_slice());
            requests.push(NumberRequest { text, unit: None });
        }
    }
    assert(request_views(requests@) =~= request_views(before) + option_requests(part@));
}

fn collect_plateau_requests(expression: &str, requests: &mut Vec<NumberRequest>)
    ensures
        request_views(final(requests)@) == request_views(old(requests)@) + plateau_requests(
            words(expression@),
        ),
{
    let ghost before = request_views(requests@);
    let parts = split_white_space(to_chars(expression).as_slice());
    let ghost all = char_texts(parts@);
    let mut i: usize = 0;
    assert(all.take(0) =~= Seq::empty());
    assert(before + plateau_requests(all.take(0)) =~= before);
    while i < parts.len()
        invariant
            i <= parts.len(),
            all == char_texts(parts@),
            request_views(requests@) == before + plateau_requests(all.take(i as int)),
        decreases parts.len() - i,
    {
        assert(all.take(i + 1).drop_last() =~= all.take(i as int));
        assert(all.take(i + 1).last() == parts@[i as int]@);
        collect_option_requests(parts[i].as_slice(), requests);
        assert(request_views(requests@) =~= before + (plateau_requests(all.take(i as int))
            + option_requests(parts@[i as int]@)));
        i += 1;
    }
    assert(all.take(i as int) =~= all);
}

fn collect_requests(declared: &str, requests: &mut Vec<NumberRequest>)
    ensures
        request_views(final(requests)@) == request_views(old(requests)@) + trigger_requests(
            declared@,
        ),
{
    let ghost before = request_views(requests@);
    let raw = trimmed(declared);
    let raw: &str = raw.as_str();
    if passed_over(raw) || strip_trigger_prefix(raw, "regex").is_some() {
        assert(before + Seq::<RequestView>::empty() =~= before);
        return;
    }
    if let Some(duration) = strip_trigger_prefix(raw, "no_output_for") {
        let value = trim_chars(to_chars(duration.as_str()).as_slice());
        requests.push(request_duration(value.as_slice()));
        assert(request_views(requests@) =~= before + trigger_requests(declared@));
        return;
    }
    if let Some(expression) = strip_trigger_prefix(raw, "metric_threshold") {
        if let Some((comparator, metric, threshold)) = split_comparison(expression.as_str()) {
            let text = from_chars(trim_chars(threshold.as_slice()).as_slice());
            requests.push(NumberRequest { text, unit: None });
        }
        assert(request_views(requests@) =~= before + trigger_requests(declared@));
        return;
    }
    if let Some(expression) = strip_trigger_prefix(raw, "metric_plateau") {
        collect_plateau_requests(expression.as_str(), requests);
        return;
    }
    if let Some(expression) = strip_trigger_prefix(raw, "plateau") {
        collect_plateau_requests(expression.as_str(), requests);
        return;
    }
    assert(before + Seq::<RequestView>::empty() =~= before);
}

/// The numbers that the declared texts ask for.
pub fn declared_requests(triggers: &Vec<String>) -> (r: Vec<NumberRequest>)
    ensures
        request_views(r@) == all_requests(texts(triggers@)),
{
    let ghost all = texts(triggers@);
    let mut requests: Vec<NumberRequest> = Vec::new();
    let mut i: usize = 0;
    assert(all.take(0) =~= Seq::empty());
    assert(request_views(requests@) =~= Seq::empty());
    while i < triggers.len()
        invariant
            i <= triggers.len(),
            all == texts(triggers@),
            request_views(requests@) == all_requests(all.take(i as int)),
        decreases triggers.len() - i,
    {
        assert(all.take(i + 1).drop_last() =~= all.take(i as int));
        assert(all.take(i + 1).last() == triggers@[i as int]@);
        collect_requests(triggers[i].as_str(), &mut requests);
        i += 1;
    }
    assert(all.take(i as int) =~= all);
    requests
}

/// Whether the answers are those of the host to what the declared texts ask for.
pub open spec fn are_answers<P: Fn(&str, Option<DurationUnit>) -> Option<Number>>(
    read_number: P,
    declared: Seq<Seq<char>>,
    entries: Seq<NumberEntry>,
) -> bool {
    &&& entries.len() == all_requests(declared).len()
    &&& forall|i: int|
        0 <= i < entries.len() ==> (#[trigger] entries[i]).request@ == all_requests(declared)[i]
            && answers(read_number, entries[i])
}

/// Whether no text was refused whose expression is made for certain.
pub open spec fn refuses_no_accepted(
    declared: Seq<Seq<char>>,
    refused: Seq<Option<Seq<char>>>,
) -> bool {
    refused.len() == declared.len() && forall|i: int|
        0 <= i < declared.len() && is_accepted(declared[i]) ==> #[trigger] refused[i] is None
}

/// That nothing was refused.
pub open spec fn nothing_refused(n: nat) -> Seq<Option<Seq<char>>> {
    Seq::new(n, |i: int| None)
}

/// Whether the expression of every declared text is made for certain.
pub open spec fn all_accepted(declared: Seq<Seq<char>>) -> bool {
    forall|i: int| 0 <= i < declared.len() ==> is_accepted(#[trigger] declared[i])
}

impl BackgroundTriggerPolicy {
    /// Reads the declared texts, given the numbers that they ask for.
    pub fn parse_with_numbers(triggers: &Vec<String>, entries: &Vec<NumberEntry>) -> (r: Result<
        Option<Self>,
        String,
    >)
        ensures
            exists|refused: Seq<Option<Seq<char>>>|
                refuses_no_accepted(texts(triggers@), refused) && #[trigger] parsed_triggers(
                    texts(triggers@),
                    entries@,
                    refused,
                ) == policy_said(r),
            all_accepted(texts(triggers@)) ==> policy_said(r) == parsed_triggers(
                texts(triggers@),
                entries@,
                nothing_refused(triggers@.len()),
            ),
            r matches Ok(Some(policy)) ==> policy.triggers@.len() > 0,
    {
        let ghost all = texts(triggers@);
        let ghost mut refused: Seq<Option<Seq<char>>> = Seq::empty();
        let mut parsed: Vec<BackgroundTriggerSpec> = Vec::new();
        let mut i: usize = 0;
        assert(all.take(0) =~= Seq::empty());
        assert(trigger_views(parsed@) =~= Seq::empty());
        while i < triggers.len()
            invariant
                i <= triggers.len(),
                all == texts(triggers@),
                refused.len() == i,
                forall|j: int|
                    0 <= j < i && is_accepted(all[j]) ==> #[trigger] refused[j] is None,
                parsed_triggers(all.take(i as int), entries@, refused) == Ok::<
                    Seq<TriggerView>,
                    Seq<char>,
                >(trigger_views(parsed@)),
            decreases triggers.len() - i,
        {
            let one = parse_trigger(triggers[i].as_str(), entries);
            proof {
                let why = choose|why: Option<Seq<char>>|
                    (is_accepted(triggers@[i as int]@) ==> why is None)
                        && #[trigger] parsed_trigger(triggers@[i as int]@, entries@, why)
                        == trigger_said(one);
                let before = refused;
                refused = refused.push(why);
                assert(all.take(i + 1).drop_last() =~= all.take(i as int));
                assert(all.take(i + 1).last() == triggers@[i as int]@);
                lemma_refused_prefix(all.take(i as int), entries@, before, refused);
            }
            match one {
                Ok(Some(trigger)) => {
                    let ghost before = parsed@;
                    parsed.push(trigger);
                    assert(trigger_views(parsed@) =~= trigger_views(before).push(trigger@));
                },
                Ok(None) => {},
                Err(message) => {
                    proof {
                        let rest = Seq::new((all.len() - i - 1) as nat, |k: int| None);
                        let whole = refused + rest;
                        lemma_refused_prefix(all.take(i + 1), entries@, refused, whole);
                        lemma_error_stays(all, entries@, whole, i + 1);
                        assert forall|j: int| 0 <= j < all.len() && is_accepted(all[j]) implies
                            #[trigger] whole[j] is None by {
                            if j <= i {
                                assert(whole[j] == refused[j]);
                            }
                        }
                        lemma_accepted(all, entries@, whole);
                    }
                    return Err(message);
                },
            }
            i += 1;
        }
        assert(all.take(i as int) =~= all);
        proof {
            lemma_accepted(all, entries@, refused);
        }
        if parsed.len() == 0 {
            assert(trigger_views(parsed@) =~= Seq::empty());
            Ok(None)
        } else {
            Ok(Some(BackgroundTriggerPolicy { triggers: parsed }))
        }
    }

    /// Reads the declared texts; the host reads the numbers in them.
    pub fn parse_declared<P: Fn(&str, Option<DurationUnit>) -> Option<Number>>(
        triggers: &Vec<String>,
        read_number: &P,
    ) -> (r: Result<Option<Self>, String>)
        requires
            forall|text: &str, unit: Option<DurationUnit>|
                call_requires(*read_number, (text, unit)),
        ensures
            exists|entries: Seq<NumberEntry>, refused: Seq<Option<Seq<char>>>|
                are_answers(*read_number, texts(triggers@), entries) && refuses_no_accepted(
                    texts(triggers@),
                    refused,
                ) && #[trigger] parsed_triggers(texts(triggers@), entries, refused) == policy_said(
                    r,
                ),
            all_accepted(texts(triggers@)) ==> exists|entries: Seq<NumberEntry>|
                are_answers(*read_number, texts(triggers@), entries)
                    && #[trigger] parsed_triggers(
                    texts(triggers@),
                    entries,
                    nothing_refused(triggers@.len()),
                ) == policy_said(r),
            r matches Ok(Some(policy)) ==> policy.triggers@.len() > 0,
    {
        let requests = declared_requests(triggers);
        let ghost asked = requests@;
        let entries = answer_requests(requests, read_number);
        proof {
            assert(request_views(asked) == all_requests(texts(triggers@)));
            assert forall|i: int| 0 <= i < entries@.len() implies (
            #[trigger] entries@[i]).request@ == all_requests(texts(triggers@))[i] && answers(
                *read_number,
                entries@[i],
            ) by {
                assert(request_views(asked)[i] == asked[i]@);
            }
        }
        BackgroundTriggerPolicy::parse_with_numbers(triggers, &entries)
    }
}

proof fn lemma_accepted(
    declared: Seq<Seq<char>>,
    entries: Seq<NumberEntry>,
    refused: Seq<Option<Seq<char>>>,
)
    requires
        refuses_no_accepted(declared, refused),
    ensures
        all_accepted(declared) ==> parsed_triggers(declared, entries, refused) == parsed_triggers(
            declared,
            entries,
            nothing_refused(declared.len()),
        ),
{
    if all_accepted(declared) {
        let none = nothing_refused(declared.len());
        assert forall|i: int| 0 <= i < declared.len() implies refused[i] == #[trigger] none[i] by {
            assert(is_accepted(declared[i]));
        }
        lemma_refused_prefix(declared, entries, refused, none);
    }
}

proof fn lemma_refused_prefix(
    declared: Seq<Seq<char>>,
    entries: Seq<NumberEntry>,
    a: Seq<Option<Seq<char>>>,
    b: Seq<Option<Seq<char>>>,
)
    requires
        declared.len() <= a.len(),
        declared.len() <= b.len(),
        forall|i: int| 0 <= i < declared.len() ==> a[i] == #[trigger] b[i],
    ensures
        parsed_triggers(declared, entries, a) == parsed_triggers(declared, entries, b),
    decreases declared.len(),
{
    if declared.len() > 0 {
        assert(a[declared.len() - 1] == b[declared.len() - 1]);
        lemma_refused_prefix(declared.drop_last(), entries, a, b);
    }
}

proof fn lemma_error_stays(
    declared: Seq<Seq<char>>,
    entries: Seq<NumberEntry>,
    refused: Seq<Option<Seq<char>>>,
    n: int,
)
    requires
        0 <= n <= declared.len(),
        parsed_triggers(declared.take(n), entries, refused) is Err,
    ensures
        parsed_triggers(declared, entries, refused) == parsed_triggers(
            declared.take(n),
            entries,
            refused,
        ),
    decreases declared.len() - n,
{
    if n < declared.len() {
        assert(declared.take(n + 1).drop_last() =~= declared.take(n));
        lemma_error_stays(declared, entries, refused, n + 1);
    } else {
        assert(declared.take(n) =~= declared);
    }
}

/// Whether two tables answer the same requests alike.
pub open spec fn agree(
    requests: Seq<RequestView>,
    a: Seq<NumberEntry>,
    b: Seq<NumberEntry>,
) -> bool {
    forall|i: int|
        0 <= i < requests.len() ==> number_of(a, #[trigger] requests[i]) == number_of(
            b,
            requests[i],
        )
}

proof fn lemma_agree_parts(
    first: Seq<RequestView>,
    second: Seq<RequestView>,
    a: Seq<NumberEntry>,
    b: Seq<NumberEntry>,
)
    requires
        agree(first + second, a, b),
    ensures
        agree(first, a, b),
        agree(second, a, b),
{
    let all = first + second;
    assert forall|i: int| 0 <= i < first.len() implies number_of(a, #[trigger] first[i])
        == number_of(b, first[i]) by {
        assert(all[i] == first[i]);
    }
    assert forall|i: int| 0 <= i < second.len() implies number_of(a, #[trigger] second[i])
        == number_of(b, second[i]) by {
        assert(all[first.len() + i] == second[i]);
    }
}

proof fn lemma_option_requests(
    options: crate::trigger_policy::PlateauOptions,
    raw: Seq<char>,
    part: Seq<char>,
    a: Seq<NumberEntry>,
    b: Seq<NumberEntry>,
)
    requires
        agree(option_requests(part), a, b),
    ensures
        with_option(options, raw, part, a) == with_option(options, raw, part, b),
{
    if let Some((key, text)) = split_once(part, "="@) {
        if ascii_lowercase(trim(key)) == "min_delta"@ {
            assert(option_requests(part)[0] == (trim(text), None::<DurationUnit>));
        }
    }
}

proof fn lemma_options_requests(
    raw: Seq<char>,
    parts: Seq<Seq<char>>,
    a: Seq<NumberEntry>,
    b: Seq<NumberEntry>,
)
    requires
        agree(plateau_requests(parts), a, b),
    ensures
        parsed_options(raw, parts, a) == parsed_options(raw, parts, b),
    decreases parts.len(),
{
    if parts.len() > 0 {
        lemma_agree_parts(
            plateau_requests(parts.drop_last()),
            option_requests(parts.last()),
            a,
            b,
        );
        lemma_options_requests(raw, parts.drop_last(), a, b);
        if let Ok(options) = parsed_options(raw, parts.drop_last(), a) {
            lemma_option_requests(options, raw, parts.last(), a, b);
        }
    }
}

proof fn lemma_requests_tail(parts: Seq<Seq<char>>, a: Seq<NumberEntry>, b: Seq<NumberEntry>)
    requires
        parts.len() > 0,
        agree(plateau_requests(parts), a, b),
    ensures
        agree(plateau_requests(parts.skip(1)), a, b),
    decreases parts.len(),
{
    if parts.len() == 1 {
        assert(parts.skip(1) =~= Seq::empty());
    } else {
        lemma_agree_parts(
            plateau_requests(parts.drop_last()),
            option_requests(parts.last()),
            a,
            b,
        );
        lemma_requests_tail(parts.drop_last(), a, b);
        let rest = parts.skip(1);
        assert(rest.drop_last() =~= parts.drop_last().skip(1));
        assert(rest.last() == parts.last());
        let all = plateau_requests(rest.drop_last()) + option_requests(rest.last());
        assert forall|i: int| 0 <= i < all.len() implies number_of(a, #[trigger] all[i])
            == number_of(b, all[i]) by {
            let first = plateau_requests(rest.drop_last());
            if i < first.len() {
                assert(all[i] == first[i]);
            } else {
                assert(all[i] == option_requests(rest.last())[i - first.len()]);
            }
        }
    }
}

proof fn lemma_plateau_requests(
    raw: Seq<char>,
    expression: Seq<char>,
    a: Seq<NumberEntry>,
    b: Seq<NumberEntry>,
    refused: Option<Seq<char>>,
)
    requires
        agree(plateau_requests(words(expression)), a, b),
    ensures
        parsed_plateau(raw, expression, a, refused) == parsed_plateau(
            raw,
            expression,
            b,
            refused,
        ),
{
    let parts = words(expression);
    if parts.len() > 0 {
        lemma_requests_tail(parts, a, b);
        lemma_options_requests(raw, parts.skip(1), a, b);
    }
}

proof fn lemma_trigger_requests(
    declared: Seq<char>,
    a: Seq<NumberEntry>,
    b: Seq<NumberEntry>,
    refused: Option<Seq<char>>,
)
    requires
        agree(trigger_requests(declared), a, b),
    ensures
        parsed_trigger(declared, a, refused) == parsed_trigger(declared, b, refused),
{
    let raw = trim(declared);
    let requests = trigger_requests(declared);
    if is_passed_over(raw) || trigger_value(raw, "regex"@) is Some {
    } else if trigger_value(raw, "no_output_for"@) is Some {
        let value = trim(trigger_value(raw, "no_output_for"@)->0);
        assert(requests[0] == duration_request(value));
    } else if trigger_value(raw, "metric_threshold"@) is Some {
        let expression = trigger_value(raw, "metric_threshold"@)->0;
        if let Some((comparator, before, after)) = first_comparison(expression) {
            assert(requests[0] == (trim(after), None::<DurationUnit>));
        }
    } else if trigger_value(raw, "metric_plateau"@) is Some {
        let expression = trigger_value(raw, "metric_plateau"@)->0;
        lemma_plateau_requests(raw, expression, a, b, refused);
    } else if trigger_value(raw, "plateau"@) is Some {
        let expression = trigger_value(raw, "plateau"@)->0;
        lemma_plateau_requests(raw, expression, a, b, refused);
    }
}

/// The triggers depend on no number but those that are asked for.
pub proof fn lemma_requests_suffice(
    declared: Seq<Seq<char>>,
    a: Seq<NumberEntry>,
    b: Seq<NumberEntry>,
    refused: Seq<Option<Seq<char>>>,
)
    requires
        agree(all_requests(declared), a, b),
    ensures
        parsed_triggers(declared, a, refused) == parsed_triggers(declared, b, refused),
    decreases declared.len(),
{
    if declared.len() > 0 {
        lemma_agree_parts(
            all_requests(declared.drop_last()),
            trigger_requests(declared.last()),
            a,
            b,
        );
        lemma_requests_suffice(declared.drop_last(), a, b, refused);
        lemma_trigger_requests(declared.last(), a, b, refused[declared.len() - 1]);
    }
}

} // verus!
