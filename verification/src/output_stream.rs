//! The output of a running command: cutting it into pieces, asking its
//! triggers, and deciding when it has ended.
//!
//! Times are nanoseconds on a clock of the host.

use vstd::prelude::*;

use crate::decimal::i32_text;
use crate::exec_events::ExecBackgroundTriggerEvent;
use crate::text::{
    clone_opt, clone_strings, concat_3, contains_text, lemma_texts_push, opt_text, owned, texts,
};
use crate::trigger_declared::{trigger_views, BackgroundTriggerPolicy};
use crate::trigger_eval::{BackgroundTriggerFired, FiredView, Observation, ObservationView};
use crate::trigger_evaluator::{
    all_after_output, all_after_silence, earliest_deadline, fired_views, fresh_triggers,
    may_all_see, output_end, output_events, runtime_views, silence_events,
    BackgroundTriggerEvaluator,
};
use crate::utf8_stream::{
    from_utf8_lossy, has_piece, lossy_text, next_piece_len, split_stream_prefix,
    UNIFIED_EXEC_OUTPUT_DELTA_MAX_BYTES,
};

verus! {

/// How long output may still come after the process has ended, in nanoseconds.
pub const TRAILING_OUTPUT_GRACE: u128 = 100_000_000;

/// The triggers that were reported, so that none is reported twice.
pub struct BackgroundEventNotifier {
    notified: Vec<String>,
}

/// The key of a trigger of a process.
pub open spec fn notification_key(process_id: Seq<char>, trigger: Seq<char>) -> Seq<char> {
    process_id + ":"@ + trigger
}

impl View for BackgroundEventNotifier {
    type V = Set<Seq<char>>;

    closed spec fn view(&self) -> Set<Seq<char>> {
        texts(self.notified@).to_set()
    }
}

impl BackgroundEventNotifier {
    /// A notifier that has reported nothing.
    pub fn new() -> (r: Self)
        ensures
            r@ == Set::<Seq<char>>::empty(),
    {
        let r = BackgroundEventNotifier { notified: Vec::new() };
        assert(r@ =~= Set::empty());
        r
    }

    /// Notes that a trigger is reported; false where it was already.
    pub fn mark_notified(&mut self, process_id: &str, trigger: &str) -> (r: bool)
        ensures
            r == !old(self)@.contains(notification_key(process_id@, trigger@)),
            final(self)@ == old(self)@.insert(notification_key(process_id@, trigger@)),
    {
        let key = concat_3(process_id, ":", trigger);
        let ghost before = texts(self.notified@);
        if contains_text(&self.notified, key.as_str()) {
            assert(before.to_set().insert(key@) =~= before.to_set());
            return false;
        }
        proof {
            lemma_texts_push(self.notified@, key);
        }
        self.notified.push(key);
        proof {
            let after = before.push(key@);
            assert forall|text: Seq<char>| after.contains(text) <==> before.contains(text) || text
                == key@ by {
                if before.contains(text) {
                    let k = choose|k: int| 0 <= k < before.len() && before[k] == text;
                    assert(after[k] == text);
                }
                assert(after[before.len() as int] == key@);
            }
            assert(after.to_set() =~= before.to_set().insert(key@));
        }
        true
    }
}

/// What a background command is watched for.
pub struct BackgroundTriggerWatchConfig {
    pub process_id: i32,
    pub command: Vec<String>,
    pub cwd: String,
    pub description: Option<String>,
    pub declared_triggers: Vec<String>,
    pub policy: BackgroundTriggerPolicy,
}

/// What is told of a command whose trigger has fired.
pub struct WatchedCommand {
    pub process_id: String,
    pub command: Vec<String>,
    pub cwd: String,
    pub description: Option<String>,
    pub declared_triggers: Vec<String>,
}

/// The events that are reported of those that have fired: those that were not
/// reported before.
pub open spec fn new_events(
    notified: Set<Seq<char>>,
    process_id: Seq<char>,
    fired: Seq<FiredView>,
) -> Seq<FiredView>
    decreases fired.len(),
{
    if fired.len() == 0 {
        Seq::empty()
    } else {
        let before = new_events(notified, process_id, fired.drop_last());
        let key = notification_key(process_id, fired.last().trigger);
        if notified_after(notified, process_id, fired.drop_last()).contains(key) {
            before
        } else {
            before.push(fired.last())
        }
    }
}

/// What was reported after events have fired.
pub open spec fn notified_after(
    notified: Set<Seq<char>>,
    process_id: Seq<char>,
    fired: Seq<FiredView>,
) -> Set<Seq<char>>
    decreases fired.len(),
{
    if fired.len() == 0 {
        notified
    } else {
        notified_after(notified, process_id, fired.drop_last()).insert(
            notification_key(process_id, fired.last().trigger),
        )
    }
}

/// Whether an event tells of a fired trigger of a command.
pub open spec fn tells_of(
    event: ExecBackgroundTriggerEvent,
    watched: WatchedCommand,
    fired: FiredView,
) -> bool {
    &&& event.process_id@ == watched.process_id@
    &&& texts(event.command@) == texts(watched.command@)
    &&& event.cwd@ == watched.cwd@
    &&& opt_text(event.description) == opt_text(watched.description)
    &&& texts(event.declared_triggers@) == texts(watched.declared_triggers@)
    &&& event.trigger@ == fired.trigger
    &&& event.reason@ == fired.reason
    &&& event.output_tail@ == fired.output_tail
}

impl WatchedCommand {
    /// The event that tells of a fired trigger.
    pub fn event(
        &self,
        call_id: &str,
        turn_id: &str,
        triggered_at_ms: i64,
        fired: &BackgroundTriggerFired,
    ) -> (r: ExecBackgroundTriggerEvent)
        ensures
            tells_of(r, *self, fired@),
            r.call_id@ == call_id@,
            r.turn_id@ == turn_id@,
            r.triggered_at_ms == triggered_at_ms,
    {
        ExecBackgroundTriggerEvent {
            call_id: owned(call_id),
            process_id: self.process_id.clone(),
            turn_id: owned(turn_id),
            triggered_at_ms,
            command: clone_strings(&self.command),
            cwd: self.cwd.clone(),
            description: clone_opt(&self.description),
            declared_triggers: clone_strings(&self.declared_triggers),
            trigger: fired.trigger.clone(),
            reason: fired.reason.clone(),
            output_tail: fired.output_tail.clone(),
        }
    }
}

/// The events that are reported of the triggers that have fired.
pub fn background_trigger_events(
    notifier: &mut BackgroundEventNotifier,
    watched: &WatchedCommand,
    call_id: &str,
    turn_id: &str,
    triggered_at_ms: i64,
    fired: &Vec<BackgroundTriggerFired>,
) -> (r: Vec<ExecBackgroundTriggerEvent>)
    ensures
        final(notifier)@ == notified_after(
            old(notifier)@,
            watched.process_id@,
            fired_views(fired@),
        ),
        r@.len() == new_events(old(notifier)@, watched.process_id@, fired_views(fired@)).len(),
        forall|i: int|
            0 <= i < r@.len() ==> tells_of(
                #[trigger] r@[i],
                *watched,
                new_events(old(notifier)@, watched.process_id@, fired_views(fired@))[i],
            ) && r@[i].call_id@ == call_id@ && r@[i].turn_id@ == turn_id@ && r@[i].triggered_at_ms
                == triggered_at_ms,
{
    let ghost start = notifier@;
    let ghost pid = watched.process_id@;
    let ghost all = fired_views(fired@);
    let mut events: Vec<ExecBackgroundTriggerEvent> = Vec::new();
    let mut i: usize = 0;
    assert(all.take(0) =~= Seq::empty());
    while i < fired.len()
        invariant
            i <= fired.len(),
            all == fired_views(fired@),
            pid == watched.process_id@,
            notifier@ == notified_after(start, pid, all.take(i as int)),
            events@.len() == new_events(start, pid, all.take(i as int)).len(),
            forall|j: int|
                0 <= j < events@.len() ==> tells_of(
                    #[trigger] events@[j],
                    *watched,
                    new_events(start, pid, all.take(i as int))[j],
                ) && events@[j].call_id@ == call_id@ && events@[j].turn_id@ == turn_id@
                    && events@[j].triggered_at_ms == triggered_at_ms,
        decreases fired.len() - i,
    {
        assert(all.take(i + 1).drop_last() =~= all.take(i as int));
        assert(all.take(i + 1).last() == fired@[i as int]@);
        if notifier.mark_notified(watched.process_id.as_str(), fired[i].trigger.as_str()) {
            events.push(watched.event(call_id, turn_id, triggered_at_ms, &fired[i]));
        }
        i += 1;
    }
    assert(all.take(i as int) =~= all);
    events
}

/// One piece of output, with what it leads to.
pub struct OutputPiece {
    /// The bytes, to be added to the transcript.
    pub bytes: Vec<u8>,
    /// The triggers that fire on it.
    pub fired: Vec<BackgroundTriggerFired>,
    /// Whether it is told as an event of its own.
    pub is_delta: bool,
}

/// What can happen to a stream, besides output.
#[derive(Clone, Copy, Debug, PartialEq, Eq, Structural)]
pub enum StreamEvent {
    /// The process has ended.
    ProcessEnded { now: u64 },
    /// Nothing was printed until the deadline.
    Silence { now: u64 },
    /// The time for trailing output is over.
    GraceOver,
    /// Some output was lost.
    Lagged,
    /// There is no more output.
    Closed,
}

/// What follows from an event of a stream.
pub enum StreamStep {
    /// The stream goes on; these triggers fire.
    Continue(Vec<BackgroundTriggerFired>),
    /// The stream has ended; what was held back can be cut off now.
    Drained,
}

/// The output of a running command.
pub struct OutputStream {
    pending: Vec<u8>,
    emitted_deltas: usize,
    max_deltas: usize,
    evaluator: Option<BackgroundTriggerEvaluator>,
    no_output_deadline: Option<u128>,
    grace_deadline: Option<u128>,
    closed: bool,
}

impl OutputStream {
    /// The bytes that were not cut into pieces yet.
    pub closed spec fn pending(self) -> Seq<u8> {
        self.pending@
    }

    /// The pieces that were told as events.
    pub closed spec fn emitted(self) -> nat {
        self.emitted_deltas as nat
    }

    /// Most pieces that are told as events.
    pub closed spec fn limit(self) -> nat {
        self.max_deltas as nat
    }

    /// The triggers of the command, where it has any.
    pub closed spec fn triggers(self) -> Option<BackgroundTriggerEvaluator> {
        self.evaluator
    }

    /// When the stream is to be told that nothing was printed.
    pub closed spec fn silence_at(self) -> Option<nat> {
        match self.no_output_deadline {
            Some(deadline) => Some(deadline as nat),
            None => None,
        }
    }

    /// When the time for trailing output is over, once the process has ended.
    pub closed spec fn grace_until(self) -> Option<nat> {
        match self.grace_deadline {
            Some(deadline) => Some(deadline as nat),
            None => None,
        }
    }

    /// Whether the stream has ended, so that no more output comes.
    pub closed spec fn is_closed(self) -> bool {
        self.closed
    }

    /// What every stream keeps: it waits for silence exactly as long as its
    /// triggers do.
    pub closed spec fn wf(self) -> bool {
        &&& self.silence_at() == wanted_silence(self.evaluator)
        &&& self.emitted_deltas <= self.max_deltas
    }

    /// A stream of which nothing was read.
    pub fn new(policy: Option<BackgroundTriggerPolicy>, max_deltas: usize, now: u64) -> (r: Self)
        ensures
            r.wf(),
            r.pending().len() == 0,
            r.emitted() == 0,
            r.limit() == max_deltas,
            r.grace_until() is None,
            !r.is_closed(),
            r.silence_at() == wanted_silence(r.triggers()),
            r.triggers() is Some <==> policy is Some,
            policy matches Some(policy) ==> runtime_views(r.triggers()->0.triggers@)
                == fresh_triggers(trigger_views(policy.triggers@)) && (
            r.triggers()->0).last_output_at == now && (r.triggers()->0).output_tail@ == Seq::<
                char,
            >::empty(),
    {
        let evaluator = match policy {
            Some(policy) => Some(BackgroundTriggerEvaluator::new(policy, now)),
            None => None,
        };
        let no_output_deadline = match &evaluator {
            Some(evaluator) => evaluator.next_no_output_deadline(),
            None => None,
        };
        OutputStream {
            pending: Vec::new(),
            emitted_deltas: 0,
            max_deltas,
            evaluator,
            no_output_deadline,
            grace_deadline: None,
            closed: false,
        }
    }

    /// Whether the end of the process is still waited for.
    pub fn waits_for_exit(&self) -> (r: bool)
        ensures
            r == (self.grace_until() is None),
    {
        self.grace_deadline.is_none()
    }

    /// When the stream is to be told that nothing was printed.
    pub fn silence_deadline(&self) -> (r: Option<u128>)
        ensures
            match r {
                Some(deadline) => self.silence_at() == Some(deadline as nat),
                None => self.silence_at() is None,
            },
    {
        self.no_output_deadline
    }

    /// When the time for trailing output is over.
    pub fn grace_deadline(&self) -> (r: Option<u128>)
        ensures
            match r {
                Some(deadline) => self.grace_until() == Some(deadline as nat),
                None => self.grace_until() is None,
            },
    {
        self.grace_deadline
    }

    /// Takes in output that was read. From then on silence is counted, even
    /// where the output is held back.
    pub fn push_chunk(&mut self, chunk: &[u8], now: u64)
        requires
            old(self).wf(),
        ensures
            final(self).wf(),
            final(self).pending() == old(self).pending() + chunk@,
            final(self).emitted() == old(self).emitted(),
            final(self).limit() == old(self).limit(),
            final(self).triggers() == if chunk@.len() > 0 {
                heard(old(self).triggers(), now)
            } else {
                old(self).triggers()
            },
            final(self).grace_until() == old(self).grace_until(),
            final(self).silence_at() == wanted_silence(final(self).triggers()),
            final(self).is_closed() == old(self).is_closed(),
    {
        self.pending.extend_from_slice(chunk);
        if chunk.len() == 0 {
            return;
        }
        let mut watcher: Option<BackgroundTriggerEvaluator> = None;
        std::mem::swap(&mut watcher, &mut self.evaluator);
        match watcher {
            Some(mut evaluator) => {
                evaluator.last_output_at = now;
                self.no_output_deadline = evaluator.next_no_output_deadline();
                self.evaluator = Some(evaluator);
            },
            None => {},
        }
    }

    /// Cuts the next piece off the output that was taken in. Until the stream
    /// has ended, the beginning of a character waits for the rest of it; then
    /// the pieces that are left are cut off.
    pub fn next_piece<R: Fn(&str, u64) -> Option<Observation>>(&mut self, now: u64, read: &R) -> (r:
        Option<OutputPiece>)
        requires
            old(self).wf(),
            forall|text: &str, operand: u64| call_requires(*read, (text, operand)),
        ensures
            final(self).wf(),
            final(self).limit() == old(self).limit(),
            final(self).grace_until() == old(self).grace_until(),
            final(self).is_closed() == old(self).is_closed(),
            final(self).silence_at() == wanted_silence(final(self).triggers()),
            r is Some <==> has_piece(old(self).pending(), old(self).is_closed()),
            r is None ==> final(self).pending() == old(self).pending() && final(self).emitted()
                == old(self).emitted() && final(self).triggers() == old(self).triggers(),
            r matches Some(piece) ==> {
                let n = next_piece_len(
                    old(self).pending(),
                    UNIFIED_EXEC_OUTPUT_DELTA_MAX_BYTES as nat,
                );
                &&& piece.bytes@ == old(self).pending().take(n)
                &&& final(self).pending() == old(self).pending().skip(n)
                &&& piece.is_delta == (old(self).emitted() < old(self).limit())
                &&& final(self).emitted() == if piece.is_delta {
                    old(self).emitted() + 1
                } else {
                    old(self).emitted()
                }
                &&& watcher_after_output(
                    *read,
                    old(self).triggers(),
                    final(self).triggers(),
                    lossy_text(piece.bytes@),
                    now,
                    fired_views(piece.fired@),
                )
            },
    {
        let bytes = match split_stream_prefix(&mut self.pending, self.closed) {
            Some(bytes) => bytes,
            None => {
                return None;
            },
        };
        let mut fired: Vec<BackgroundTriggerFired> = Vec::new();
        assert(fired_views(fired@) =~= Seq::empty());
        let mut watcher: Option<BackgroundTriggerEvaluator> = None;
        std::mem::swap(&mut watcher, &mut self.evaluator);
        match watcher {
            Some(mut evaluator) => {
                let text = from_utf8_lossy(bytes.as_slice());
                fired = evaluator.on_output(text.as_str(), now, read);
                self.no_output_deadline = evaluator.next_no_output_deadline();
                self.evaluator = Some(evaluator);
            },
            None => {},
        }
        let is_delta = self.emitted_deltas < self.max_deltas;
        if is_delta {
            self.emitted_deltas += 1;
        }
        Some(OutputPiece { bytes, fired, is_delta })
    }

    /// Takes note of an event. A stream that has ended stays ended.
    pub fn on_event(&mut self, event: StreamEvent) -> (r: StreamStep)
        requires
            old(self).wf(),
        ensures
            final(self).wf(),
            final(self).pending() == old(self).pending(),
            final(self).emitted() == old(self).emitted(),
            final(self).limit() == old(self).limit(),
            final(self).silence_at() == wanted_silence(final(self).triggers()),
            r is Drained <==> event is GraceOver || event is Closed,
            final(self).is_closed() == (old(self).is_closed() || r is Drained),
            event matches StreamEvent::ProcessEnded { now } ==> final(self).grace_until()
                == Some((now + TRAILING_OUTPUT_GRACE) as nat),
            !(event is ProcessEnded) ==> final(self).grace_until() == old(self).grace_until(),
            event matches StreamEvent::Silence { now } ==> r is Continue && watcher_after_silence(
                old(self).triggers(),
                final(self).triggers(),
                now,
                fired_views(r->Continue_0@),
            ),
            !(event is Silence) ==> final(self).triggers() == old(self).triggers() && (
            r matches StreamStep::Continue(fired) ==> fired@.len() == 0),
    {
        match event {
            StreamEvent::ProcessEnded { now } => {
                self.grace_deadline = Some(now as u128 + TRAILING_OUTPUT_GRACE);
                StreamStep::Continue(Vec::new())
            },
            StreamEvent::Silence { now } => {
                let mut fired: Vec<BackgroundTriggerFired> = Vec::new();
                assert(fired_views(fired@) =~= Seq::empty());
                let mut watcher: Option<BackgroundTriggerEvaluator> = None;
                std::mem::swap(&mut watcher, &mut self.evaluator);
                match watcher {
                    Some(mut evaluator) => {
                        fired = evaluator.on_no_output_timeout(now);
                        self.no_output_deadline = evaluator.next_no_output_deadline();
                        self.evaluator = Some(evaluator);
                    },
                    None => {
                        self.no_output_deadline = None;
                    },
                }
                StreamStep::Continue(fired)
            },
            StreamEvent::Lagged => StreamStep::Continue(Vec::new()),
            StreamEvent::GraceOver | StreamEvent::Closed => {
                self.closed = true;
                StreamStep::Drained
            },
        }
    }
}

/// When triggers want to be told that nothing was printed.
pub open spec fn wanted_silence(evaluator: Option<BackgroundTriggerEvaluator>) -> Option<nat> {
    match evaluator {
        Some(evaluator) => earliest_deadline(
            runtime_views(evaluator.triggers@),
            evaluator.last_output_at,
            evaluator.triggers@.len() as int,
        ),
        None => None,
    }
}

/// The triggers of a stream to which something was printed.
pub open spec fn heard(evaluator: Option<BackgroundTriggerEvaluator>, now: u64) -> Option<
    BackgroundTriggerEvaluator,
> {
    match evaluator {
        Some(evaluator) => Some(BackgroundTriggerEvaluator { last_output_at: now, ..evaluator }),
        None => None,
    }
}

/// What output makes of the triggers of a stream, and which fire.
pub open spec fn watcher_after_output<R: Fn(&str, u64) -> Option<Observation>>(
    read: R,
    before: Option<BackgroundTriggerEvaluator>,
    after: Option<BackgroundTriggerEvaluator>,
    text: Seq<char>,
    now: u64,
    fired: Seq<FiredView>,
) -> bool {
    match before {
        None => after is None && fired.len() == 0,
        Some(old_watcher) => after matches Some(new_watcher) && {
            let triggers = runtime_views(old_watcher.triggers@);
            let scan = old_watcher.output_tail@ + text;
            &&& new_watcher.last_output_at == now
            &&& new_watcher.output_tail@ == output_end(scan)
            &&& exists|seen: Seq<Seq<ObservationView>>| #[trigger]
                may_all_see(read, triggers, text, seen) && runtime_views(new_watcher.triggers@)
                    == all_after_output(triggers, scan, seen) && fired == output_events(
                    triggers,
                    scan,
                    seen,
                    new_watcher.output_tail@,
                    old_watcher.triggers@.len() as int,
                )
        },
    }
}

/// What silence makes of the triggers of a stream, and which fire.
pub open spec fn watcher_after_silence(
    before: Option<BackgroundTriggerEvaluator>,
    after: Option<BackgroundTriggerEvaluator>,
    now: u64,
    fired: Seq<FiredView>,
) -> bool {
    match before {
        None => after is None && fired.len() == 0,
        Some(old_watcher) => after matches Some(new_watcher) && {
            let triggers = runtime_views(old_watcher.triggers@);
            &&& new_watcher.last_output_at == old_watcher.last_output_at
            &&& new_watcher.output_tail@ == old_watcher.output_tail@
            &&& runtime_views(new_watcher.triggers@) == all_after_silence(
                triggers,
                now,
                old_watcher.last_output_at,
            )
            &&& fired == silence_events(
                triggers,
                now,
                old_watcher.last_output_at,
                old_watcher.output_tail@,
                old_watcher.triggers@.len() as int,
            )
        },
    }
}

/// What is told of the command of a watch.
pub fn watched_command(config: BackgroundTriggerWatchConfig) -> (r: (
    WatchedCommand,
    BackgroundTriggerPolicy,
))
    ensures
        r.0.process_id@ == crate::decimal::decimal_int(config.process_id as int),
        r.0.command == config.command,
        r.0.cwd == config.cwd,
        r.0.description == config.description,
        r.0.declared_triggers == config.declared_triggers,
        r.1 == config.policy,
{
    let watched = WatchedCommand {
        process_id: i32_text(config.process_id),
        command: config.command,
        cwd: config.cwd,
        description: config.description,
        declared_triggers: config.declared_triggers,
    };
    (watched, config.policy)
}

proof fn lemma_notified_grows(
    notified: Set<Seq<char>>,
    process_id: Seq<char>,
    fired: Seq<FiredView>,
    key: Seq<char>,
)
    ensures
        notified.contains(key) ==> notified_after(notified, process_id, fired).contains(key),
    decreases fired.len(),
{
    if fired.len() > 0 {
        lemma_notified_grows(notified, process_id, fired.drop_last(), key);
    }
}

/// A trigger that was reported is not reported again, whatever fires later.
pub proof fn lemma_reported_once(
    notified: Set<Seq<char>>,
    process_id: Seq<char>,
    fired: Seq<FiredView>,
    i: int,
)
    requires
        0 <= i < new_events(notified, process_id, fired).len(),
    ensures
        !notified.contains(
            notification_key(
                process_id,
                new_events(notified, process_id, fired)[i].trigger,
            ),
        ),
        notified_after(notified, process_id, fired).contains(
            notification_key(
                process_id,
                new_events(notified, process_id, fired)[i].trigger,
            ),
        ),
    decreases fired.len(),
{
    if fired.len() > 0 {
        let rest = fired.drop_last();
        let before = new_events(notified, process_id, rest);
        let key = notification_key(process_id, fired.last().trigger);
        if i < before.len() {
            lemma_reported_once(notified, process_id, rest, i);
            assert(new_events(notified, process_id, fired)[i] == before[i]);
        } else {
            lemma_notified_grows(notified, process_id, rest, key);
        }
    }
}

} // verus!
