//! What holds of all triggers of a command together: which of them fire, in
//! what order, and when they are asked again.

use vstd::prelude::*;

use crate::choices::{is_choice, lemma_choice_step, lemma_no_choice, lemma_same_choice};
use crate::numbers::is_finite;
use crate::trigger_eval::{
    after_output, after_silence, kept_observations, metric_of, output_reason, silence_deadline,
    silence_reason, FiredView, ObservationView, RuntimeView,
};
use crate::trigger_evaluator::{
    all_after_output, all_after_silence, earliest_deadline, fresh_triggers, output_end,
    output_events, silence_events,
};
use crate::trigger_policy::TriggerView;

verus! {

/// The text in which a trigger was declared.
pub open spec fn declared_as(trigger: RuntimeView) -> Seq<char> {
    match trigger.spec {
        TriggerView::Regex { raw, .. } => raw,
        TriggerView::NoOutputFor { raw, .. } => raw,
        TriggerView::MetricThreshold { raw, .. } => raw,
        TriggerView::Plateau { raw, .. } => raw,
    }
}

/// Whether an event tells of a trigger, why it fired, and the end of the
/// output.
pub open spec fn tells_of(
    event: FiredView,
    trigger: RuntimeView,
    reason: Option<Seq<char>>,
    tail: Seq<char>,
) -> bool {
    &&& event.trigger == declared_as(trigger)
    &&& reason == Some(event.reason)
    &&& event.output_tail == tail
}

/// Whether the chosen positions are those of the triggers that fire on output.
pub open spec fn chooses_firing(
    at: Seq<int>,
    triggers: Seq<RuntimeView>,
    scan: Seq<char>,
    seen: Seq<Seq<ObservationView>>,
    n: int,
) -> bool {
    is_choice(at, n, |i: int| output_reason(triggers[i], scan, seen[i]) is Some)
}

proof fn lemma_firing_places(
    triggers: Seq<RuntimeView>,
    scan: Seq<char>,
    seen: Seq<Seq<ObservationView>>,
    tail: Seq<char>,
    n: int,
) -> (at: Seq<int>)
    requires
        0 <= n,
    ensures
        chooses_firing(at, triggers, scan, seen, n),
        output_events(triggers, scan, seen, tail, n).len() == at.len(),
        forall|j: int|
            0 <= j < at.len() ==> tells_of(
                output_events(triggers, scan, seen, tail, n)[j],
                triggers[#[trigger] at[j]],
                output_reason(triggers[at[j]], scan, seen[at[j]]),
                tail,
            ),
    decreases n,
{
    let chosen = |i: int| output_reason(triggers[i], scan, seen[i]) is Some;
    if n <= 0 {
        lemma_no_choice(chosen);
        Seq::empty()
    } else {
        let at = lemma_firing_places(triggers, scan, seen, tail, n - 1);
        lemma_choice_step(at, n - 1, chosen);
        if chosen(n - 1) {
            at.push(n - 1)
        } else {
            at
        }
    }
}

/// On output, every trigger that fires is told of once, in the order of the
/// triggers, and each trigger goes on as it would alone.
pub proof fn lemma_firing_triggers_are_told_in_order(
    triggers: Seq<RuntimeView>,
    scan: Seq<char>,
    seen: Seq<Seq<ObservationView>>,
    tail: Seq<char>,
)
    ensures
        exists|at: Seq<int>|
            {
                let events = output_events(triggers, scan, seen, tail, triggers.len() as int);
                &&& #[trigger] chooses_firing(at, triggers, scan, seen, triggers.len() as int)
                &&& events.len() == at.len()
                &&& forall|j: int|
                    0 <= j < at.len() ==> tells_of(
                        events[j],
                        triggers[#[trigger] at[j]],
                        output_reason(triggers[at[j]], scan, seen[at[j]]),
                        tail,
                    )
            },
        all_after_output(triggers, scan, seen).len() == triggers.len(),
        forall|i: int|
            0 <= i < triggers.len() ==> #[trigger] all_after_output(triggers, scan, seen)[i]
                == after_output(triggers[i], scan, seen[i]),
{
    let at = lemma_firing_places(triggers, scan, seen, tail, triggers.len() as int);
}

/// Whether the chosen positions are those of the triggers that fire for want
/// of output.
pub open spec fn chooses_silent(
    at: Seq<int>,
    triggers: Seq<RuntimeView>,
    now: u64,
    last_output_at: u64,
    n: int,
) -> bool {
    is_choice(at, n, |i: int| silence_reason(triggers[i], now, last_output_at) is Some)
}

proof fn lemma_silent_places(
    triggers: Seq<RuntimeView>,
    now: u64,
    last_output_at: u64,
    tail: Seq<char>,
    n: int,
) -> (at: Seq<int>)
    requires
        0 <= n,
    ensures
        chooses_silent(at, triggers, now, last_output_at, n),
        silence_events(triggers, now, last_output_at, tail, n).len() == at.len(),
        forall|j: int|
            0 <= j < at.len() ==> tells_of(
                silence_events(triggers, now, last_output_at, tail, n)[j],
                triggers[#[trigger] at[j]],
                silence_reason(triggers[at[j]], now, last_output_at),
                tail,
            ),
    decreases n,
{
    let chosen = |i: int| silence_reason(triggers[i], now, last_output_at) is Some;
    if n <= 0 {
        lemma_no_choice(chosen);
        Seq::empty()
    } else {
        let at = lemma_silent_places(triggers, now, last_output_at, tail, n - 1);
        lemma_choice_step(at, n - 1, chosen);
        if chosen(n - 1) {
            at.push(n - 1)
        } else {
            at
        }
    }
}

/// For want of output, every trigger that fires is told of once, in the order
/// of the triggers.
pub proof fn lemma_silent_triggers_are_told_in_order(
    triggers: Seq<RuntimeView>,
    now: u64,
    last_output_at: u64,
    tail: Seq<char>,
)
    ensures
        exists|at: Seq<int>|
            {
                let events = silence_events(
                    triggers,
                    now,
                    last_output_at,
                    tail,
                    triggers.len() as int,
                );
                &&& #[trigger] chooses_silent(
                    at,
                    triggers,
                    now,
                    last_output_at,
                    triggers.len() as int,
                )
                &&& events.len() == at.len()
                &&& forall|j: int|
                    0 <= j < at.len() ==> tells_of(
                        events[j],
                        triggers[#[trigger] at[j]],
                        silence_reason(triggers[at[j]], now, last_output_at),
                        tail,
                    )
            },
        all_after_silence(triggers, now, last_output_at).len() == triggers.len(),
        forall|i: int|
            0 <= i < triggers.len() ==> #[trigger] all_after_silence(triggers, now, last_output_at)[i]
                == after_silence(triggers[i], now, last_output_at),
{
    let at = lemma_silent_places(triggers, now, last_output_at, tail, triggers.len() as int);
}

/// When a trigger that has not fired would fire for want of output.
pub open spec fn is_due(trigger: RuntimeView, last_output_at: u64, time: int) -> bool {
    !trigger.fired && (trigger.spec matches TriggerView::NoOutputFor { raw, duration, seconds }
        && time == last_output_at + duration.secs * 1_000_000_000 + duration.nanos)
}

/// The time at which triggers are asked again is the earliest at which one of
/// them is due; where none will be, there is no such time.
pub proof fn lemma_asked_when_first_is_due(
    triggers: Seq<RuntimeView>,
    last_output_at: u64,
    n: int,
)
    requires
        0 <= n <= triggers.len(),
    ensures
        match earliest_deadline(triggers, last_output_at, n) {
            Some(deadline) => (exists|i: int|
                0 <= i < n && is_due(#[trigger] triggers[i], last_output_at, deadline as int))
                && forall|i: int, time: int|
                0 <= i < n && #[trigger] is_due(triggers[i], last_output_at, time) ==> deadline
                    <= time,
            None => forall|i: int, time: int|
                0 <= i < n ==> !#[trigger] is_due(triggers[i], last_output_at, time),
        },
    decreases n,
{
    if n > 0 {
        lemma_asked_when_first_is_due(triggers, last_output_at, n - 1);
        let last = triggers[n - 1];
        let mine = silence_deadline(last, last_output_at);
        match last.spec {
            TriggerView::NoOutputFor { raw, duration, seconds } => {
                if !last.fired {
                    assert(is_due(last, last_output_at, mine->0 as int));
                }
            },
            _ => {},
        }
        assert forall|time: int| #[trigger] is_due(last, last_output_at, time) implies mine == Some(
            time as nat,
        ) by {}
        match earliest_deadline(triggers, last_output_at, n - 1) {
            Some(before) => {
                let i = choose|i: int|
                    0 <= i < n - 1 && is_due(#[trigger] triggers[i], last_output_at, before as int);
                assert(is_due(triggers[i], last_output_at, before as int));
            },
            None => {},
        }
    }
}

/// Triggers start in their order, with nothing seen and nothing fired.
pub proof fn lemma_triggers_start_fresh(specs: Seq<TriggerView>)
    ensures
        fresh_triggers(specs).len() == specs.len(),
        forall|i: int|
            #![trigger fresh_triggers(specs)[i]]
            0 <= i < specs.len() ==> fresh_triggers(specs)[i].spec == specs[i] && !fresh_triggers(
                specs,
            )[i].fired && fresh_triggers(specs)[i].best is None && fresh_triggers(specs)[i].stale
                == 0,
{
}

/// Whether the chosen positions are those of the numbers that are finite.
pub open spec fn chooses_finite(at: Seq<int>, results: Seq<Option<ObservationView>>) -> bool {
    is_choice(
        at,
        results.len() as int,
        |i: int| results[i] matches Some(observation) && is_finite(observation.bits),
    )
}

proof fn lemma_finite_places(results: Seq<Option<ObservationView>>) -> (at: Seq<int>)
    ensures
        chooses_finite(at, results),
        kept_observations(results) == Seq::new(at.len(), |j: int| results[at[j]]->0),
    decreases results.len(),
{
    let chosen = |i: int| results[i] matches Some(observation) && is_finite(observation.bits);
    if results.len() == 0 {
        lemma_no_choice(chosen);
        let at = Seq::<int>::empty();
        assert(kept_observations(results) =~= Seq::new(at.len(), |j: int| results[at[j]]->0));
        at
    } else {
        let rest = results.drop_last();
        let n = rest.len() as int;
        let at = lemma_finite_places(rest);
        let known = |i: int| rest[i] matches Some(observation) && is_finite(observation.bits);
        assert forall|i: int| 0 <= i < n implies #[trigger] known(i) == chosen(i) by {
            assert(rest[i] == results[i]);
        }
        lemma_same_choice(at, n, known, chosen);
        lemma_choice_step(at, n, chosen);
        let more = if chosen(n) {
            at.push(n)
        } else {
            at
        };
        assert(kept_observations(results) =~= Seq::new(more.len(), |j: int| results[more[j]]->0));
        more
    }
}

/// A trigger sees every finite number that was read, in order, and nothing
/// else.
pub proof fn lemma_finite_numbers_are_seen(results: Seq<Option<ObservationView>>)
    ensures
        exists|at: Seq<int>| #[trigger]
            chooses_finite(at, results) && kept_observations(results) == Seq::new(
                at.len(),
                |j: int| results[at[j]]->0,
            ),
{
    let at = lemma_finite_places(results);
}

/// A threshold trigger reads numbers to compare them with its threshold, and a
/// plateau trigger to tell them apart by its least difference; both by the
/// pattern of their metric. The others read none.
pub proof fn lemma_numbers_are_read_for_their_use(spec: TriggerView)
    ensures
        spec matches TriggerView::MetricThreshold { raw, metric, comparator, threshold, pattern }
            ==> metric_of(spec) == Some((pattern, threshold.bits)),
        spec matches TriggerView::Plateau { raw, metric, patience, min_delta, mode, pattern }
            ==> metric_of(spec) == Some((pattern, min_delta)),
        spec is Regex || spec is NoOutputFor ==> metric_of(spec) is None,
{
}

/// Of the output, the last two thousand characters are kept, and all of it
/// where there are no more.
pub proof fn lemma_end_of_output_is_kept(output: Seq<char>)
    ensures
        output.len() <= 2000 ==> output_end(output) == output,
        output.len() > 2000 ==> output_end(output) == output.skip(output.len() - 2000),
{
}

} // verus!
