//! The triggers of a background command while it runs.
//!
//! Times are nanoseconds on a clock of the host.

use regex_lite::Regex;
use vstd::prelude::*;

use crate::decimal::{decimal, push_usize};
use crate::numbers::{at_most, finite, is_at_most, is_finite, NumberView};
use crate::regexes::{
    regex_first_groups, regex_groups, regex_is_match, regex_matches, regex_source,
};
use crate::text::{concat_3, opt_text, owned};
use crate::trigger_policy::{
    BackgroundTriggerSpec, MetricComparator, MetricThresholdTriggerSpec, PlateauMode, TriggerView,
};

verus! {

/// Most characters of the output that are kept.
pub const OUTPUT_TAIL_MAX_CHARS: usize = 2_000;

/// A number that was read from the output, with what the host computes of it
/// and of a second number: the threshold or the least improvement of a trigger.
#[derive(Debug, PartialEq, Eq)]
pub struct Observation {
    /// The bits of the number.
    pub bits: u64,
    /// The number as the host shows it.
    pub shown: String,
    /// Whether the two numbers differ by at most the distance from one to the
    /// next number.
    pub near: bool,
    /// The bits of the number less the second number.
    pub less: u64,
    /// The bits of the number plus the second number.
    pub plus: u64,
}

/// The texts of an [`Observation`].
pub struct ObservationView {
    pub bits: u64,
    pub shown: Seq<char>,
    pub near: bool,
    pub less: u64,
    pub plus: u64,
}

impl View for Observation {
    type V = ObservationView;

    open spec fn view(&self) -> ObservationView {
        ObservationView {
            bits: self.bits,
            shown: self.shown@,
            near: self.near,
            less: self.less,
            plus: self.plus,
        }
    }
}

impl Clone for Observation {
    fn clone(&self) -> (r: Self)
        ensures
            r@ == self@,
    {
        Observation {
            bits: self.bits,
            shown: self.shown.clone(),
            near: self.near,
            less: self.less,
            plus: self.plus,
        }
    }
}

/// A trigger that has fired.
#[derive(Debug, PartialEq, Eq)]
pub struct BackgroundTriggerFired {
    pub trigger: String,
    pub reason: String,
    pub output_tail: String,
}

/// The texts of a [`BackgroundTriggerFired`].
pub struct FiredView {
    pub trigger: Seq<char>,
    pub reason: Seq<char>,
    pub output_tail: Seq<char>,
}

impl View for BackgroundTriggerFired {
    type V = FiredView;

    open spec fn view(&self) -> FiredView {
        FiredView {
            trigger: self.trigger@,
            reason: self.reason@,
            output_tail: self.output_tail@,
        }
    }
}

/// A trigger while its command runs.
pub struct RuntimeTrigger {
    pub spec: BackgroundTriggerSpec,
    pub fired: bool,
    /// The best observation of a plateau trigger.
    pub best: Option<Observation>,
    /// The observations of a plateau trigger since the best.
    pub stale_observations: usize,
}

/// What a [`RuntimeTrigger`] says.
pub struct RuntimeView {
    pub spec: TriggerView,
    pub fired: bool,
    pub best: Option<ObservationView>,
    pub stale: usize,
}

/// The view of an optional observation.
pub open spec fn opt_observation(value: Option<Observation>) -> Option<ObservationView> {
    match value {
        Some(observation) => Some(observation@),
        None => None,
    }
}

/// The view of an optional event.
pub open spec fn opt_fired(value: Option<BackgroundTriggerFired>) -> Option<FiredView> {
    match value {
        Some(fired) => Some(fired@),
        None => None,
    }
}

impl View for RuntimeTrigger {
    type V = RuntimeView;

    open spec fn view(&self) -> RuntimeView {
        RuntimeView {
            spec: self.spec@,
            fired: self.fired,
            best: opt_observation(self.best),
            stale: self.stale_observations,
        }
    }
}

/// The views of a list of observations.
pub open spec fn observation_views(observations: Seq<Observation>) -> Seq<ObservationView> {
    Seq::new(observations.len(), |i: int| observations[i]@)
}

/// The name of a trigger.
pub open spec fn trigger_name(spec: TriggerView) -> Seq<char> {
    match spec {
        TriggerView::Regex { raw, .. } => raw,
        TriggerView::NoOutputFor { raw, .. } => raw,
        TriggerView::MetricThreshold { raw, .. } => raw,
        TriggerView::Plateau { raw, .. } => raw,
    }
}

/// The position of the first observation, from `from` on, that meets a
/// threshold.
pub open spec fn first_meeting(
    comparator: MetricComparator,
    threshold: u64,
    seen: Seq<ObservationView>,
    from: int,
) -> Option<int>
    decreases seen.len() - from,
{
    if from >= seen.len() {
        None
    } else if comparator.holds(seen[from].bits, seen[from].near, threshold) {
        Some(from)
    } else {
        first_meeting(comparator, threshold, seen, from + 1)
    }
}

/// Whether an observation improves on the best: the first does, and later ones
/// by at least the least improvement.
pub open spec fn improves(
    mode: PlateauMode,
    best: Option<ObservationView>,
    observed: ObservationView,
) -> bool {
    match best {
        None => true,
        Some(best) => match mode {
            PlateauMode::Min => is_at_most(observed.bits, best.less),
            PlateauMode::Max => is_at_most(best.plus, observed.bits),
        },
    }
}

/// One more, as far as the type goes.
pub open spec fn one_more(n: usize) -> usize {
    if n == usize::MAX {
        n
    } else {
        (n + 1) as usize
    }
}

/// What a plateau trigger makes of the observations from `from` on: the best,
/// the number of observations since, and the position at which it fires.
pub open spec fn plateau_after(
    mode: PlateauMode,
    patience: usize,
    best: Option<ObservationView>,
    stale: usize,
    seen: Seq<ObservationView>,
    from: int,
) -> (Option<ObservationView>, usize, Option<int>)
    decreases seen.len() - from,
{
    if from >= seen.len() {
        (best, stale, None)
    } else if improves(mode, best, seen[from]) {
        plateau_after(mode, patience, Some(seen[from]), 0, seen, from + 1)
    } else if one_more(stale) >= patience {
        (best, one_more(stale), Some(from))
    } else {
        plateau_after(mode, patience, best, one_more(stale), seen, from + 1)
    }
}

/// Why a threshold trigger fires.
pub open spec fn threshold_reason(
    metric: Seq<char>,
    comparator: MetricComparator,
    threshold: NumberView,
    observed: ObservationView,
) -> Seq<char> {
    metric + " "@ + comparator.sign() + " "@ + threshold.shown + " matched with observed "@
        + observed.shown
}

/// Why a plateau trigger fires.
pub open spec fn plateau_reason(
    metric: Seq<char>,
    best: Option<ObservationView>,
    observed: ObservationView,
    stale: usize,
) -> Seq<char> {
    let best_shown = match best {
        Some(best) => best.shown,
        None => observed.shown,
    };
    metric + " plateaued: best "@ + best_shown + ", latest "@ + observed.shown
        + ", stale observations "@ + decimal(stale as nat)
}

/// Why a trigger fires on output, if it does: on the text so far, and on the
/// numbers that were seen in the new text.
pub open spec fn output_reason(
    trigger: RuntimeView,
    scan: Seq<char>,
    seen: Seq<ObservationView>,
) -> Option<Seq<char>> {
    if trigger.fired {
        None
    } else {
        match trigger.spec {
            TriggerView::Regex { raw, pattern } => if regex_matches(pattern, scan) {
                Some("regex pattern matched process output"@)
            } else {
                None
            },
            TriggerView::NoOutputFor { .. } => None,
            TriggerView::MetricThreshold { raw, metric, comparator, threshold, pattern } => {
                match first_meeting(comparator, threshold.bits, seen, 0) {
                    Some(k) => Some(threshold_reason(metric, comparator, threshold, seen[k])),
                    None => None,
                }
            },
            TriggerView::Plateau { raw, metric, patience, min_delta, mode, pattern } => {
                let after = plateau_after(mode, patience, trigger.best, trigger.stale, seen, 0);
                match after.2 {
                    Some(k) => Some(plateau_reason(metric, after.0, seen[k], after.1)),
                    None => None,
                }
            },
        }
    }
}

/// A trigger after output.
pub open spec fn after_output(
    trigger: RuntimeView,
    scan: Seq<char>,
    seen: Seq<ObservationView>,
) -> RuntimeView {
    let fired = trigger.fired || output_reason(trigger, scan, seen) is Some;
    match trigger.spec {
        TriggerView::Plateau { raw, metric, patience, min_delta, mode, pattern } => {
            if trigger.fired {
                trigger
            } else {
                let after = plateau_after(mode, patience, trigger.best, trigger.stale, seen, 0);
                RuntimeView { fired, best: after.0, stale: after.1, ..trigger }
            }
        },
        _ => RuntimeView { fired, ..trigger },
    }
}

/// When a trigger fires for want of output: never where it has fired.
pub open spec fn silence_deadline(trigger: RuntimeView, last_output_at: u64) -> Option<nat> {
    match trigger.spec {
        TriggerView::NoOutputFor { raw, duration, seconds } => if trigger.fired {
            None
        } else {
            Some((last_output_at + duration.total()) as nat)
        },
        _ => None,
    }
}

/// Why a trigger fires for want of output, if it does.
pub open spec fn silence_reason(trigger: RuntimeView, now: u64, last_output_at: u64) -> Option<
    Seq<char>,
> {
    match trigger.spec {
        TriggerView::NoOutputFor { raw, duration, seconds } => {
            match silence_deadline(trigger, last_output_at) {
                Some(deadline) => if now >= deadline {
                    Some("no output for "@ + seconds + " seconds"@)
                } else {
                    None
                },
                None => None,
            }
        },
        _ => None,
    }
}

/// A trigger after it was asked for want of output.
pub open spec fn after_silence(trigger: RuntimeView, now: u64, last_output_at: u64) -> RuntimeView {
    RuntimeView {
        fired: trigger.fired || silence_reason(trigger, now, last_output_at) is Some,
        ..trigger
    }
}

/// The event of a trigger that fires for a reason.
pub open spec fn event_of(trigger: RuntimeView, reason: Seq<char>, tail: Seq<char>) -> FiredView {
    FiredView { trigger: trigger_name(trigger.spec), reason, output_tail: tail }
}

/// The event of a trigger, where it fires.
pub open spec fn opt_event(
    trigger: RuntimeView,
    reason: Option<Seq<char>>,
    tail: Seq<char>,
) -> Option<FiredView> {
    match reason {
        Some(reason) => Some(event_of(trigger, reason, tail)),
        None => None,
    }
}

/// The observations that were read, without those that are no number or not
/// finite.
pub open spec fn kept_observations(results: Seq<Option<ObservationView>>) -> Seq<ObservationView>
    decreases results.len(),
{
    if results.len() == 0 {
        Seq::empty()
    } else {
        let before = kept_observations(results.drop_last());
        match results.last() {
            Some(observation) => if is_finite(observation.bits) {
                before.push(observation)
            } else {
                before
            },
            None => before,
        }
    }
}

/// Whether the host can have read a group of a match so.
pub open spec fn may_read<R: Fn(&str, u64) -> Option<Observation>>(
    read: R,
    group: Option<Seq<char>>,
    operand: u64,
    result: Option<ObservationView>,
) -> bool {
    match group {
        None => result is None,
        Some(group) => exists|text: &str, answer: Option<Observation>|
            text@ == group && #[trigger] call_ensures(read, (text, operand), answer)
                && opt_observation(answer) == result,
    }
}

/// Whether the host can have read the groups of the matches so.
pub open spec fn may_read_all<R: Fn(&str, u64) -> Option<Observation>>(
    read: R,
    groups: Seq<Option<Seq<char>>>,
    operand: u64,
    results: Seq<Option<ObservationView>>,
) -> bool {
    &&& results.len() == groups.len()
    &&& forall|i: int|
        0 <= i < groups.len() ==> may_read(read, groups[i], operand, #[trigger] results[i])
}

/// The pattern by which a trigger finds numbers, and its second number.
pub open spec fn metric_of(spec: TriggerView) -> Option<(Seq<char>, u64)> {
    match spec {
        TriggerView::MetricThreshold { raw, metric, comparator, threshold, pattern } => Some(
            (pattern, threshold.bits),
        ),
        TriggerView::Plateau { raw, metric, patience, min_delta, mode, pattern } => Some(
            (pattern, min_delta),
        ),
        _ => None,
    }
}

/// Whether these can be the numbers that a pattern finds in a text.
pub open spec fn may_extract<R: Fn(&str, u64) -> Option<Observation>>(
    read: R,
    pattern: Seq<char>,
    operand: u64,
    text: Seq<char>,
    seen: Seq<ObservationView>,
) -> bool {
    exists|results: Seq<Option<ObservationView>>| #[trigger]
        may_read_all(read, regex_groups(pattern, text), operand, results) && seen
            == kept_observations(results)
}

/// Whether a trigger can have seen these numbers in a text: none where it has
/// fired, and none where it looks for none.
pub open spec fn may_see<R: Fn(&str, u64) -> Option<Observation>>(
    read: R,
    trigger: RuntimeView,
    text: Seq<char>,
    seen: Seq<ObservationView>,
) -> bool {
    match metric_of(trigger.spec) {
        None => seen.len() == 0,
        Some((pattern, operand)) => if trigger.fired {
            seen.len() == 0
        } else {
            may_extract(read, pattern, operand, text, seen)
        },
    }
}

/// Reads the numbers of a metric.
pub fn extract_metric_values<R: Fn(&str, u64) -> Option<Observation>>(
    regex: &Regex,
    text: &str,
    operand: u64,
    read: &R,
) -> (r: Vec<Observation>)
    requires
        forall|text: &str, operand: u64| call_requires(*read, (text, operand)),
    ensures
        may_extract(*read, regex_source(*regex), operand, text@, observation_views(r@)),
{
    let groups = regex_first_groups(regex, text);
    let ghost group_views = Seq::new(groups@.len(), |i: int| opt_text(groups@[i]));
    let ghost mut results: Seq<Option<ObservationView>> = Seq::empty();
    let mut r: Vec<Observation> = Vec::new();
    let mut i: usize = 0;
    assert(observation_views(r@) =~= Seq::empty());
    while i < groups.len()
        invariant
            i <= groups.len(),
            group_views == Seq::new(groups@.len(), |i: int| opt_text(groups@[i])),
            results.len() == i,
            forall|text: &str, operand: u64| call_requires(*read, (text, operand)),
            forall|j: int|
                0 <= j < i ==> may_read(*read, group_views[j], operand, #[trigger] results[j]),
            observation_views(r@) == kept_observations(results),
        decreases groups.len() - i,
    {
        let ghost before = results;
        match &groups[i] {
            Some(group) => {
                let group_text: &str = group.as_str();
                let answer = read(group_text, operand);
                proof {
                    assert(call_ensures(*read, (group_text, operand), answer));
                    assert(group_views[i as int] == Some(group@));
                    results = before.push(opt_observation(answer));
                    assert(may_read(*read, group_views[i as int], operand, results[i as int]));
                    assert(results.drop_last() =~= before);
                }
                if let Some(observation) = answer {
                    if finite(observation.bits) {
                        let ghost kept = r@;
                        r.push(observation);
                        assert(observation_views(r@) =~= observation_views(kept).push(
                            observation@,
                        ));
                    }
                }
            },
            None => {
                proof {
                    results = before.push(None);
                    assert(group_views[i as int] is None);
                    assert(results.drop_last() =~= before);
                }
            },
        }
        i += 1;
    }
    assert(may_read_all(*read, group_views, operand, results));
    r
}

fn describe_threshold(spec: &MetricThresholdTriggerSpec, observed: &Observation) -> (r: String)
    ensures
        r@ == threshold_reason(spec.metric@, spec.comparator, spec.threshold@, observed@),
{
    let mut r = concat_3(spec.metric.as_str(), " ", spec.comparator.label());
    r.append(" ");
    r.append(spec.threshold.shown.as_str());
    r.append(" matched with observed ");
    r.append(observed.shown.as_str());
    r
}

fn describe_plateau(
    metric: &str,
    best: &Option<Observation>,
    observed: &Observation,
    stale: usize,
) -> (r: String)
    ensures
        r@ == plateau_reason(metric@, opt_observation(*best), observed@, stale),
{
    let best_shown = match best {
        Some(best) => best.shown.clone(),
        None => observed.shown.clone(),
    };
    let mut r = concat_3(metric, " plateaued: best ", best_shown.as_str());
    r.append(", latest ");
    r.append(observed.shown.as_str());
    r.append(", stale observations ");
    push_usize(&mut r, stale);
    r
}

fn improvement(mode: PlateauMode, best: &Option<Observation>, observed: &Observation) -> (r: bool)
    ensures
        r == improves(mode, opt_observation(*best), observed@),
{
    match best {
        None => true,
        Some(best) => match mode {
            PlateauMode::Min => at_most(observed.bits, best.less),
            PlateauMode::Max => at_most(best.plus, observed.bits),
        },
    }
}

impl RuntimeTrigger {
    /// A trigger that has seen nothing yet.
    pub fn from_spec(spec: BackgroundTriggerSpec) -> (r: Self)
        ensures
            r@ == (RuntimeView { spec: spec@, fired: false, best: None, stale: 0 }),
    {
        RuntimeTrigger { spec, fired: false, best: None, stale_observations: 0 }
    }

    fn fire(&mut self, reason: String, output_tail: &str) -> (r: BackgroundTriggerFired)
        ensures
            final(self)@ == (RuntimeView { fired: true, ..old(self)@ }),
            final(self).spec == old(self).spec,
            r@ == event_of(old(self)@, reason@, output_tail@),
    {
        let trigger = match &self.spec {
            BackgroundTriggerSpec::Regex(spec) => spec.raw.clone(),
            BackgroundTriggerSpec::NoOutputFor(spec) => spec.raw.clone(),
            BackgroundTriggerSpec::MetricThreshold(spec) => spec.raw.clone(),
            BackgroundTriggerSpec::Plateau(spec) => spec.raw.clone(),
        };
        self.fired = true;
        BackgroundTriggerFired { trigger, reason, output_tail: owned(output_tail) }
    }

    /// Takes note of output, given the numbers that were seen in the new text
    /// and whether the pattern matches the text so far.
    pub fn observe(&mut self, matched: bool, seen: &Vec<Observation>, output_tail: &str) -> (r:
        Option<BackgroundTriggerFired>)
        ensures
            forall|scan: Seq<char>|
                old(self)@.fired || (old(self)@.spec matches TriggerView::Regex { raw, pattern }
                    ==> regex_matches(pattern, scan) == matched) ==> final(self)@ == #[trigger] after_output(
                    old(self)@,
                    scan,
                    observation_views(seen@),
                ) && opt_fired(r) == opt_event(
                    old(self)@,
                    output_reason(old(self)@, scan, observation_views(seen@)),
                    output_tail@,
                ),
    {
        if self.fired {
            return None;
        }
        let ghost views = observation_views(seen@);
        let ghost start = self@;
        let mut reason: Option<String> = None;
        match &self.spec {
            BackgroundTriggerSpec::Regex(_) => {
                if matched {
                    reason = Some(owned("regex pattern matched process output"));
                }
            },
            BackgroundTriggerSpec::NoOutputFor(_) => {},
            BackgroundTriggerSpec::MetricThreshold(spec) => {
                let mut i: usize = 0;
                while i < seen.len() && reason.is_none()
                    invariant
                        i <= seen.len(),
                        views == observation_views(seen@),
                        reason is None ==> first_meeting(
                            spec.comparator,
                            spec.threshold.bits,
                            views,
                            0,
                        ) == first_meeting(
                            spec.comparator,
                            spec.threshold.bits,
                            views,
                            i as int,
                        ),
                        reason matches Some(text) ==> first_meeting(
                            spec.comparator,
                            spec.threshold.bits,
                            views,
                            0,
                        ) matches Some(k) && text@ == threshold_reason(
                            spec.metric@,
                            spec.comparator,
                            spec.threshold@,
                            views[k],
                        ),
                    decreases seen.len() - i,
                {
                    assert(views[i as int] == seen@[i as int]@);
                    if spec.comparator.evaluate(seen[i].bits, seen[i].near, spec.threshold.bits) {
                        reason = Some(describe_threshold(spec, &seen[i]));
                    }
                    i += 1;
                }
            },
            BackgroundTriggerSpec::Plateau(spec) => {
                let ghost goal = plateau_after(
                    spec.mode,
                    spec.patience,
                    start.best,
                    start.stale,
                    views,
                    0,
                );
                let mut best: Option<Observation> = match &self.best {
                    Some(best) => Some(best.clone()),
                    None => None,
                };
                let mut stale: usize = self.stale_observations;
                let mut i: usize = 0;
                while i < seen.len() && reason.is_none()
                    invariant
                        i <= seen.len(),
                        views == observation_views(seen@),
                        reason is None ==> goal == plateau_after(
                            spec.mode,
                            spec.patience,
                            opt_observation(best),
                            stale,
                            views,
                            i as int,
                        ),
                        reason matches Some(text) ==> goal.2 is Some && goal.0
                            == opt_observation(best) && goal.1 == stale && text@
                            == plateau_reason(spec.metric@, goal.0, views[goal.2->0], stale),
                    decreases seen.len() - i,
                {
                    assert(views[i as int] == seen@[i as int]@);
                    if improvement(spec.mode, &best, &seen[i]) {
                        best = Some(seen[i].clone());
                        stale = 0;
                    } else {
                        if stale < usize::MAX {
                            stale += 1;
                        }
                        if stale >= spec.patience {
                            reason = Some(
                                describe_plateau(spec.metric.as_str(), &best, &seen[i], stale),
                            );
                        }
                    }
                    i += 1;
                }
                self.best = best;
                self.stale_observations = stale;
            },
        }
        match reason {
            Some(reason) => Some(self.fire(reason, output_tail)),
            None => None,
        }
    }

    /// Takes note of output.
    pub fn on_output<R: Fn(&str, u64) -> Option<Observation>>(
        &mut self,
        text: &str,
        regex_scan_text: &str,
        output_tail: &str,
        read: &R,
    ) -> (r: Option<BackgroundTriggerFired>)
        requires
            forall|text: &str, operand: u64| call_requires(*read, (text, operand)),
        ensures
            exists|seen: Seq<ObservationView>| #[trigger]
                may_see(*read, old(self)@, text@, seen) && final(self)@ == after_output(
                    old(self)@,
                    regex_scan_text@,
                    seen,
                ) && opt_fired(r) == opt_event(
                    old(self)@,
                    output_reason(old(self)@, regex_scan_text@, seen),
                    output_tail@,
                ),
    {
        let ghost start = self@;
        let mut matched = false;
        let mut seen: Vec<Observation> = Vec::new();
        assert(observation_views(seen@) =~= Seq::empty());
        if !self.fired {
            match &self.spec {
                BackgroundTriggerSpec::Regex(spec) => {
                    matched = regex_is_match(&spec.regex, regex_scan_text);
                },
                BackgroundTriggerSpec::NoOutputFor(_) => {},
                BackgroundTriggerSpec::MetricThreshold(spec) => {
                    let values = extract_metric_values(
                        &spec.metric_regex,
                        text,
                        spec.threshold.bits,
                        read,
                    );
                    assert(may_see(*read, start, text@, observation_views(values@)));
                    seen = values;
                },
                BackgroundTriggerSpec::Plateau(spec) => {
                    let values = extract_metric_values(
                        &spec.metric_regex,
                        text,
                        spec.min_delta,
                        read,
                    );
                    assert(may_see(*read, start, text@, observation_views(values@)));
                    seen = values;
                },
            }
        }
        assert(may_see(*read, start, text@, observation_views(seen@)));
        let r = self.observe(matched, &seen, output_tail);
        r
    }

    /// Takes note that there was no output.
    pub fn on_no_output_timeout(
        &mut self,
        now: u64,
        last_output_at: u64,
        output_tail: &str,
    ) -> (r: Option<BackgroundTriggerFired>)
        ensures
            final(self)@ == after_silence(old(self)@, now, last_output_at),
            opt_fired(r) == opt_event(
                old(self)@,
                silence_reason(old(self)@, now, last_output_at),
                output_tail@,
            ),
    {
        let reason = match &self.spec {
            BackgroundTriggerSpec::NoOutputFor(spec) => {
                if self.fired {
                    return None;
                }
                let deadline: u128 = last_output_at as u128 + spec.duration.as_nanos();
                if (now as u128) < deadline {
                    return None;
                }
                concat_3("no output for ", spec.seconds.as_str(), " seconds")
            },
            _ => {
                return None;
            },
        };
        Some(self.fire(reason, output_tail))
    }

    /// When the trigger fires for want of output.
    pub fn next_no_output_deadline(&self, last_output_at: u64) -> (r: Option<u128>)
        ensures
            match r {
                Some(deadline) => silence_deadline(self@, last_output_at) == Some(deadline as nat),
                None => silence_deadline(self@, last_output_at) is None,
            },
    {
        match &self.spec {
            BackgroundTriggerSpec::NoOutputFor(spec) => if self.fired {
                None
            } else {
                Some(last_output_at as u128 + spec.duration.as_nanos())
            },
            _ => None,
        }
    }
}

} // verus!
