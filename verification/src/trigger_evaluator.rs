//! All the triggers of a background command while it runs.

use vstd::prelude::*;

use crate::lists::keep_last;
use crate::text::{from_chars, sub_chars, to_chars};
use crate::trigger_declared::{trigger_views, BackgroundTriggerPolicy};
use crate::trigger_eval::{
    after_output, after_silence, event_of, may_see, opt_event, opt_fired, output_reason,
    silence_deadline, silence_reason, BackgroundTriggerFired, FiredView, Observation,
    ObservationView, RuntimeTrigger, RuntimeView, OUTPUT_TAIL_MAX_CHARS,
};
use crate::trigger_policy::TriggerView;

verus! {

/// The triggers of a running command.
pub struct BackgroundTriggerEvaluator {
    pub triggers: Vec<RuntimeTrigger>,
    pub last_output_at: u64,
    pub output_tail: String,
}

/// The views of a list of running triggers.
pub open spec fn runtime_views(triggers: Seq<RuntimeTrigger>) -> Seq<RuntimeView> {
    Seq::new(triggers.len(), |i: int| triggers[i]@)
}

/// The views of a list of events.
pub open spec fn fired_views(fired: Seq<BackgroundTriggerFired>) -> Seq<FiredView> {
    Seq::new(fired.len(), |i: int| fired[i]@)
}

/// Triggers that have seen nothing yet.
pub open spec fn fresh_triggers(specs: Seq<TriggerView>) -> Seq<RuntimeView> {
    Seq::new(
        specs.len(),
        |i: int| RuntimeView { spec: specs[i], fired: false, best: None, stale: 0 },
    )
}

/// The end of the output that is kept.
pub open spec fn output_end(output: Seq<char>) -> Seq<char> {
    keep_last(output, OUTPUT_TAIL_MAX_CHARS as nat)
}

/// The triggers after output.
pub open spec fn all_after_output(
    triggers: Seq<RuntimeView>,
    scan: Seq<char>,
    seen: Seq<Seq<ObservationView>>,
) -> Seq<RuntimeView> {
    Seq::new(triggers.len(), |i: int| after_output(triggers[i], scan, seen[i]))
}

/// The events of those of the first `n` triggers that fire on output.
pub open spec fn output_events(
    triggers: Seq<RuntimeView>,
    scan: Seq<char>,
    seen: Seq<Seq<ObservationView>>,
    tail: Seq<char>,
    n: int,
) -> Seq<FiredView>
    decreases n,
{
    if n <= 0 {
        Seq::empty()
    } else {
        let before = output_events(triggers, scan, seen, tail, n - 1);
        match output_reason(triggers[n - 1], scan, seen[n - 1]) {
            Some(reason) => before.push(event_of(triggers[n - 1], reason, tail)),
            None => before,
        }
    }
}

/// The triggers after they were asked for want of output.
pub open spec fn all_after_silence(
    triggers: Seq<RuntimeView>,
    now: u64,
    last_output_at: u64,
) -> Seq<RuntimeView> {
    Seq::new(triggers.len(), |i: int| after_silence(triggers[i], now, last_output_at))
}

/// The events of those of the first `n` triggers that fire for want of output.
pub open spec fn silence_events(
    triggers: Seq<RuntimeView>,
    now: u64,
    last_output_at: u64,
    tail: Seq<char>,
    n: int,
) -> Seq<FiredView>
    decreases n,
{
    if n <= 0 {
        Seq::empty()
    } else {
        let before = silence_events(triggers, now, last_output_at, tail, n - 1);
        match silence_reason(triggers[n - 1], now, last_output_at) {
            Some(reason) => before.push(event_of(triggers[n - 1], reason, tail)),
            None => before,
        }
    }
}

/// The earlier of two times, where there are any.
pub open spec fn earlier(a: Option<nat>, b: Option<nat>) -> Option<nat> {
    match (a, b) {
        (Some(x), Some(y)) => Some(
            if x <= y {
                x
            } else {
                y
            },
        ),
        (Some(x), None) => Some(x),
        (None, _) => b,
    }
}

/// The earliest time at which one of the first `n` triggers fires for want of
/// output.
pub open spec fn earliest_deadline(
    triggers: Seq<RuntimeView>,
    last_output_at: u64,
    n: int,
) -> Option<nat>
    decreases n,
{
    if n <= 0 {
        None
    } else {
        earlier(
            earliest_deadline(triggers, last_output_at, n - 1),
            silence_deadline(triggers[n - 1], last_output_at),
        )
    }
}

/// Whether each trigger can have seen these numbers in a text.
pub open spec fn may_all_see<R: Fn(&str, u64) -> Option<Observation>>(
    read: R,
    triggers: Seq<RuntimeView>,
    text: Seq<char>,
    seen: Seq<Seq<ObservationView>>,
) -> bool {
    &&& seen.len() == triggers.len()
    &&& forall|i: int|
        0 <= i < triggers.len() ==> may_see(read, triggers[i], text, #[trigger] seen[i])
}

/// Adds output to what is kept of it.
pub fn push_tail(tail: &mut String, text: &str)
    ensures
        final(tail)@ == output_end(old(tail)@ + text@),
{
    tail.append(text);
    let chars = to_chars(tail.as_str());
    let count = chars.len();
    if count > OUTPUT_TAIL_MAX_CHARS {
        let kept = sub_chars(chars.as_slice(), count - OUTPUT_TAIL_MAX_CHARS, count);
        assert(kept@ =~= chars@.skip(count - OUTPUT_TAIL_MAX_CHARS));
        *tail = from_chars(kept.as_slice());
    }
}

impl BackgroundTriggerEvaluator {
    /// The triggers of a command that starts.
    pub fn new(policy: BackgroundTriggerPolicy, now: u64) -> (r: Self)
        ensures
            runtime_views(r.triggers@) == fresh_triggers(trigger_views(policy.triggers@)),
            r.last_output_at == now,
            r.output_tail@ == Seq::<char>::empty(),
    {
        let ghost goal = fresh_triggers(trigger_views(policy.triggers@));
        let ghost all = policy.triggers@;
        let mut rest: Vec<crate::trigger_policy::BackgroundTriggerSpec> = policy.triggers;
        let mut triggers: Vec<RuntimeTrigger> = Vec::new();
        let len = rest.len();
        let mut i: usize = 0;
        while i < len
            invariant
                i <= len,
                len == all.len(),
                rest@ == all.skip(i as int),
                goal == fresh_triggers(trigger_views(all)),
                triggers@.len() == i,
                forall|j: int| 0 <= j < i ==> (#[trigger] triggers@[j])@ == goal[j],
            decreases len - i,
        {
            let spec = rest.remove(0);
            assert(spec == all[i as int]);
            assert(rest@ =~= all.skip(i + 1));
            triggers.push(RuntimeTrigger::from_spec(spec));
            i += 1;
        }
        assert(runtime_views(triggers@) =~= goal);
        let output_tail = String::new();
        assert(output_tail@ =~= Seq::empty());
        BackgroundTriggerEvaluator { triggers, last_output_at: now, output_tail }
    }

    /// Takes note of output, and returns the events that it fires.
    pub fn on_output<R: Fn(&str, u64) -> Option<Observation>>(
        &mut self,
        text: &str,
        now: u64,
        read: &R,
    ) -> (r: Vec<BackgroundTriggerFired>)
        requires
            forall|text: &str, operand: u64| call_requires(*read, (text, operand)),
        ensures
            final(self).last_output_at == now,
            final(self).output_tail@ == output_end(old(self).output_tail@ + text@),
            exists|seen: Seq<Seq<ObservationView>>| #[trigger]
                may_all_see(*read, runtime_views(old(self).triggers@), text@, seen)
                    && runtime_views(final(self).triggers@) == all_after_output(
                    runtime_views(old(self).triggers@),
                    old(self).output_tail@ + text@,
                    seen,
                ) && fired_views(r@) == output_events(
                    runtime_views(old(self).triggers@),
                    old(self).output_tail@ + text@,
                    seen,
                    final(self).output_tail@,
                    old(self).triggers@.len() as int,
                ),
    {
        let ghost start = runtime_views(self.triggers@);
        let ghost count = self.triggers@.len();
        self.last_output_at = now;
        let mut scan = self.output_tail.clone();
        scan.append(text);
        push_tail(&mut self.output_tail, text);
        let ghost tail = self.output_tail@;
        let ghost mut seen: Seq<Seq<ObservationView>> = Seq::empty();
        let mut fired: Vec<BackgroundTriggerFired> = Vec::new();
        let mut i: usize = 0;
        assert(fired_views(fired@) =~= Seq::empty());
        while i < self.triggers.len()
            invariant
                i <= self.triggers@.len(),
                self.triggers@.len() == count,
                start.len() == count,
                self.last_output_at == now,
                self.output_tail@ == tail,
                seen.len() == i,
                forall|text: &str, operand: u64| call_requires(*read, (text, operand)),
                forall|j: int| i <= j < count ==> (#[trigger] self.triggers@[j])@ == start[j],
                forall|j: int|
                    0 <= j < i ==> (#[trigger] self.triggers@[j])@ == after_output(
                        start[j],
                        scan@,
                        seen[j],
                    ),
                forall|j: int| 0 <= j < i ==> may_see(*read, start[j], text@, #[trigger] seen[j]),
                fired_views(fired@) == output_events(start, scan@, seen, tail, i as int),
            decreases self.triggers.len() - i,
        {
            let ghost before = self.triggers@;
            let event = self.triggers[i].on_output(
                text,
                scan.as_str(),
                self.output_tail.as_str(),
                read,
            );
            proof {
                let one = choose|one: Seq<ObservationView>| #[trigger]
                    may_see(*read, start[i as int], text@, one) && self.triggers@[i as int]@
                        == after_output(start[i as int], scan@, one) && opt_fired(event)
                        == opt_event(
                        start[i as int],
                        output_reason(start[i as int], scan@, one),
                        tail,
                    );
                let known = seen;
                seen = seen.push(one);
                lemma_output_events_prefix(start, scan@, known, seen, tail, i as int);
            }
            if let Some(event) = event {
                let ghost so_far = fired@;
                fired.push(event);
                assert(fired_views(fired@) =~= fired_views(so_far).push(event@));
            }
            i += 1;
        }
        assert(runtime_views(self.triggers@) =~= all_after_output(start, scan@, seen));
        assert(may_all_see(*read, start, text@, seen));
        fired
    }

    /// Takes note that there was no output, and returns the events that it
    /// fires.
    pub fn on_no_output_timeout(&mut self, now: u64) -> (r: Vec<BackgroundTriggerFired>)
        ensures
            final(self).last_output_at == old(self).last_output_at,
            final(self).output_tail@ == old(self).output_tail@,
            runtime_views(final(self).triggers@) == all_after_silence(
                runtime_views(old(self).triggers@),
                now,
                old(self).last_output_at,
            ),
            fired_views(r@) == silence_events(
                runtime_views(old(self).triggers@),
                now,
                old(self).last_output_at,
                old(self).output_tail@,
                old(self).triggers@.len() as int,
            ),
    {
        let ghost start = runtime_views(self.triggers@);
        let ghost count = self.triggers@.len();
        let ghost tail = self.output_tail@;
        let last_output_at = self.last_output_at;
        let mut fired: Vec<BackgroundTriggerFired> = Vec::new();
        let mut i: usize = 0;
        assert(fired_views(fired@) =~= Seq::empty());
        while i < self.triggers.len()
            invariant
                i <= self.triggers@.len(),
                self.triggers@.len() == count,
                start.len() == count,
                self.last_output_at == last_output_at,
                self.output_tail@ == tail,
                forall|j: int| i <= j < count ==> (#[trigger] self.triggers@[j])@ == start[j],
                forall|j: int|
                    0 <= j < i ==> (#[trigger] self.triggers@[j])@ == after_silence(
                        start[j],
                        now,
                        last_output_at,
                    ),
                fired_views(fired@) == silence_events(start, now, last_output_at, tail, i as int),
            decreases self.triggers.len() - i,
        {
            let event = self.triggers[i].on_no_output_timeout(
                now,
                last_output_at,
                self.output_tail.as_str(),
            );
            if let Some(event) = event {
                let ghost so_far = fired@;
                fired.push(event);
                assert(fired_views(fired@) =~= fired_views(so_far).push(event@));
            }
            i += 1;
        }
        assert(runtime_views(self.triggers@) =~= all_after_silence(start, now, last_output_at));
        fired
    }

    /// The earliest time at which a trigger fires for want of output.
    pub fn next_no_output_deadline(&self) -> (r: Option<u128>)
        ensures
            match r {
                Some(deadline) => earliest_deadline(
                    runtime_views(self.triggers@),
                    self.last_output_at,
                    self.triggers@.len() as int,
                ) == Some(deadline as nat),
                None => earliest_deadline(
                    runtime_views(self.triggers@),
                    self.last_output_at,
                    self.triggers@.len() as int,
                ) is None,
            },
    {
        let ghost views = runtime_views(self.triggers@);
        let mut earliest: Option<u128> = None;
        let mut i: usize = 0;
        while i < self.triggers.len()
            invariant
                i <= self.triggers.len(),
                views == runtime_views(self.triggers@),
                match earliest {
                    Some(deadline) => earliest_deadline(views, self.last_output_at, i as int)
                        == Some(deadline as nat),
                    None => earliest_deadline(views, self.last_output_at, i as int) is None,
                },
            decreases self.triggers.len() - i,
        {
            if let Some(deadline) = self.triggers[i].next_no_output_deadline(self.last_output_at) {
                match earliest {
                    Some(known) => {
                        if deadline < known {
                            earliest = Some(deadline);
                        }
                    },
                    None => {
                        earliest = Some(deadline);
                    },
                }
            }
            i += 1;
        }
        earliest
    }
}

proof fn lemma_output_events_prefix(
    triggers: Seq<RuntimeView>,
    scan: Seq<char>,
    a: Seq<Seq<ObservationView>>,
    b: Seq<Seq<ObservationView>>,
    tail: Seq<char>,
    n: int,
)
    requires
        n <= a.len(),
        n <= b.len(),
        forall|i: int| 0 <= i < n ==> a[i] == #[trigger] b[i],
    ensures
        output_events(triggers, scan, a, tail, n) == output_events(triggers, scan, b, tail, n),
    decreases n,
{
    if n > 0 {
        assert(a[n - 1] == b[n - 1]);
        lemma_output_events_prefix(triggers, scan, a, b, tail, n - 1);
    }
}

/// A trigger that fires on output has fired, and one that has fired fires no
/// more, whatever is printed and however long nothing is.
pub proof fn lemma_fires_once(
    trigger: RuntimeView,
    scan: Seq<char>,
    seen: Seq<ObservationView>,
    now: u64,
    last_output_at: u64,
)
    ensures
        output_reason(trigger, scan, seen) is Some ==> after_output(trigger, scan, seen).fired,
        silence_reason(trigger, now, last_output_at) is Some ==> after_silence(
            trigger,
            now,
            last_output_at,
        ).fired,
        trigger.fired ==> output_reason(trigger, scan, seen) is None && after_output(
            trigger,
            scan,
            seen,
        ).fired,
        trigger.fired ==> silence_reason(trigger, now, last_output_at) is None && after_silence(
            trigger,
            now,
            last_output_at,
        ).fired,
        after_output(trigger, scan, seen).spec == trigger.spec,
        after_silence(trigger, now, last_output_at).spec == trigger.spec,
{
}

/// What is kept of the output is the end of all output, however it was cut into
/// pieces.
pub proof fn lemma_tail_of_all_output(before: Seq<char>, text: Seq<char>)
    ensures
        output_end(output_end(before) + text) == output_end(before + text),
        output_end(before).len() <= OUTPUT_TAIL_MAX_CHARS,
{
    assert(output_end(output_end(before) + text) =~= output_end(before + text));
}

/// Before the earliest deadline nothing fires for want of output; from it on
/// something does.
pub proof fn lemma_deadline(
    triggers: Seq<RuntimeView>,
    now: u64,
    last_output_at: u64,
    tail: Seq<char>,
    n: int,
)
    requires
        0 <= n <= triggers.len(),
    ensures
        match earliest_deadline(triggers, last_output_at, n) {
            Some(deadline) => now >= deadline <==> silence_events(
                triggers,
                now,
                last_output_at,
                tail,
                n,
            ).len() > 0,
            None => silence_events(triggers, now, last_output_at, tail, n).len() == 0,
        },
    decreases n,
{
    if n > 0 {
        lemma_deadline(triggers, now, last_output_at, tail, n - 1);
    }
}

} // verus!
