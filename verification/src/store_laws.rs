//! What holds of a store across several events.

use vstd::prelude::*;

use crate::context::ContextView;
use crate::decimal::decimal_int;
use crate::exec_events::{
    ExecBackgroundTriggerEvent, ExecCommandBeginEvent, ExecCommandEndEvent,
};
use crate::file_changes::FileChangeItem;
use crate::jobs::JobView;
use crate::lists::{keep_last, lemma_append_capped_bound, lemma_without, MAX_TOOL_EVENT_CHARS};
use crate::pending::{
    distinct_keys, first_pending, key_position, lemma_key_position, lemma_put_back_all,
    lemma_superseded_keeps, not_superseded, MAX_PENDING_BACKGROUND_EVENTS,
};
use crate::record_tool::{lemma_record_twice, RecordLinkContextArgs};
use crate::store::{trigger_evidence, with_evidence, StoreView, MAX_RECORDED_TOOL_EVENTS};
use crate::text::{eq_ignore_case, is_blank, trim};
use crate::tool_finish::ToolFinishInput;
use crate::trigger_events::{lemma_exit_keys_agree, EventView};

verus! {

/// Whether an event with this key waits or was seen.
pub open spec fn is_known(store: StoreView, key: Seq<char>) -> bool {
    key_position(store.pending, key) is Some || store.keys.contains(key)
}

/// Events that were taken and put back wait as before: a turn that could not
/// be started changes nothing.
pub proof fn lemma_requeue_restores(store: StoreView)
    requires
        store.is_bounded(),
    ensures
        store.popped().requeued(store.pending) == store,
{
    let none: Seq<EventView> = Seq::empty();
    assert forall|i: int| 0 <= i < store.pending.len() implies key_position(
        none,
        (#[trigger] store.pending[i]).event_key,
    ) is None by {}
    lemma_put_back_all(none, store.pending);
    assert(store.pending + none =~= store.pending);
    assert(none =~= store.pending || store.pending.len() > 0);
}

/// Events that are put back stand in front of those that came meanwhile, in
/// their order, as far as there is room.
pub proof fn lemma_requeued_come_first(store: StoreView, events: Seq<EventView>)
    requires
        distinct_keys(events),
        forall|i: int|
            0 <= i < events.len() ==> key_position(store.pending, (#[trigger] events[i]).event_key)
                is None,
        store.pending.len() <= MAX_PENDING_BACKGROUND_EVENTS,
    ensures
        store.requeued(events).pending == first_pending(events + store.pending),
{
    lemma_put_back_all(store.pending, events);
    assert(Seq::<EventView>::empty() + store.pending =~= store.pending);
    assert(events.len() == 0 ==> events =~= Seq::empty());
}

/// After an event was queued its key is known.
pub proof fn lemma_enqueued_is_known(store: StoreView, event: EventView)
    ensures
        is_known(store.enqueued(event), event.event_key),
        !is_known(store, event.event_key) ==> store.enqueued(event).keys.contains(event.event_key)
            && store.enqueued(event).pending.last() == event,
{
    let key = event.event_key;
    let after = store.enqueued(event);
    lemma_key_position(store.pending, key);
    match key_position(store.pending, key) {
        Some(i) => {
            lemma_key_position(after.pending, key);
            assert(after.pending[i].event_key == key);
        },
        None => {
            if !store.keys.contains(key) {
                assert(after.keys[after.keys.len() - 1] == key);
            }
        },
    }
}

/// An event whose key was seen, and does not wait, is not queued again.
pub proof fn lemma_seen_is_not_queued(store: StoreView, event: EventView)
    requires
        store.keys.contains(event.event_key),
        key_position(store.pending, event.event_key) is None,
    ensures
        store.enqueued(event).pending.len() <= store.pending.len(),
        forall|i: int|
            0 <= i < store.enqueued(event).pending.len() ==> store.pending.contains(
                #[trigger] store.enqueued(event).pending[i],
            ),
        store.enqueued(event).keys == store.keys,
{
    lemma_superseded_keeps(store.pending, event);
}

/// A trigger that fires again after its event was shown is not shown again.
pub proof fn lemma_shown_trigger_is_not_queued_again(
    store: StoreView,
    event: ExecBackgroundTriggerEvent,
)
    requires
        store.keys.contains(store.fired_event(event).event_key) || key_position(
            store.pending,
            store.fired_event(event).event_key,
        ) is None,
    ensures
        store.trigger_fired(event).popped().trigger_fired(event).pending.len() == 0,
{
    let first = StoreView {
        state: with_evidence(store.state, trigger_evidence(event)),
        ..store
    };
    let queued = store.trigger_fired(event);
    lemma_enqueued_is_known(first, store.fired_event(event));
    let shown = queued.popped();
    let again = StoreView {
        state: with_evidence(shown.state, trigger_evidence(event)),
        ..shown
    };
    assert(shown.keys.contains(store.fired_event(event).event_key));
    assert(shown.fired_event(event).event_key == store.fired_event(event).event_key);
    lemma_seen_is_not_queued(again, shown.fired_event(event));
}

/// A command whose exit a trigger has reported is not reported a second time
/// when its end comes, whether or not the first report was shown in between.
pub proof fn lemma_exit_is_reported_once(
    store: StoreView,
    trigger: ExecBackgroundTriggerEvent,
    end: ExecCommandEndEvent,
)
    requires
        eq_ignore_case(trigger.trigger@, "on_exit"@),
        trigger.reason@ == "process exited with code "@ + decimal_int(end.exit_code as int),
        end.process_id is Some,
        trigger.process_id@ == end.process_id->0@,
        forall|id: Seq<char>| #[trigger]
            store.jobs.dom().contains(id) ==> store.jobs[id].process_id == id,
        store.keys.contains(store.fired_event(trigger).event_key) || key_position(
            store.pending,
            store.fired_event(trigger).event_key,
        ) is None,
    ensures
        store.trigger_fired(trigger).command_ended(end).pending.len() <= store.trigger_fired(
            trigger,
        ).pending.len(),
        store.trigger_fired(trigger).popped().command_ended(end).pending.len() == 0,
{
    let event = store.fired_event(trigger);
    let fired = store.trigger_fired(trigger);
    let first = StoreView {
        state: with_evidence(store.state, trigger_evidence(trigger)),
        ..store
    };
    lemma_enqueued_is_known(first, event);
    assert(fired.jobs == store.jobs);
    if fired.knows(end) {
        let id = end.process_id->0@;
        let job = store.jobs[id];
        lemma_exit_keys_agree(trigger, end, job, event.description, event.triggers, event.log_path);
        let ended = EventView::ended(job, end);
        assert(ended.event_key == event.event_key);
        lemma_known_does_not_grow(fired.command_over(end), ended);
        lemma_known_does_not_grow(fired.popped().command_over(end), ended);
    }
}

proof fn lemma_known_does_not_grow(store: StoreView, event: EventView)
    requires
        is_known(store, event.event_key),
    ensures
        store.enqueued(event).pending.len() <= store.pending.len(),
{
    lemma_key_position(store.pending, event.event_key);
    lemma_superseded_keeps(store.pending, event);
}

/// After the first report of an exit, no other event on that exit waits for
/// the same session.
pub proof fn lemma_exit_takes_over(store: StoreView, event: EventView, i: int)
    requires
        event.is_terminal_exit(),
        !is_known(store, event.event_key),
        0 <= i < store.enqueued(event).pending.len(),
        store.enqueued(event).pending[i].process_id == event.process_id,
        store.enqueued(event).pending[i].is_exit_trigger(),
    ensures
        i == store.enqueued(event).pending.len() - 1,
        store.enqueued(event).pending[i] == event,
{
    lemma_superseded_keeps(store.pending, event);
    lemma_enqueued_is_known(store, event);
    let rest = not_superseded(store.pending, event);
    let all = rest.push(event);
    let kept = keep_last(all, MAX_PENDING_BACKGROUND_EVENTS as nat);
    let shift = all.len() - kept.len();
    assert(kept[i] == all[i + shift]);
    if i + shift < rest.len() {
        assert(all[i + shift] == rest[i + shift]);
        assert(!event.supersedes(rest[i + shift]));
    }
}

/// A job that has ended is no longer tracked nor listed.
pub proof fn lemma_ended_job_is_gone(store: StoreView, end: ExecCommandEndEvent)
    requires
        store.knows(end),
    ensures
        !store.command_ended(end).jobs.dom().contains(end.process_id->0@),
        !store.command_ended(end).state.active_background_jobs.contains(
            store.jobs[end.process_id->0@].summary(),
        ),
{
    lemma_without(
        store.state.active_background_jobs,
        store.jobs[end.process_id->0@].summary(),
    );
}

/// However many events are recorded, only so much evidence stays.
pub proof fn lemma_evidence_bound(state: ContextView, evidence: Seq<char>)
    ensures
        with_evidence(state, evidence).verified_evidence.len() <= MAX_RECORDED_TOOL_EVENTS,
{
    lemma_append_capped_bound(
        state.verified_evidence,
        seq![evidence],
        MAX_RECORDED_TOOL_EVENTS,
        MAX_TOOL_EVENT_CHARS as nat,
    );
}

/// An event that waits gets the log path of its job, once that is known.
pub proof fn lemma_late_log_path(store: StoreView, job: JobView, i: int)
    requires
        0 <= i < store.pending.len(),
        store.pending[i].process_id == job.process_id,
        store.pending[i].log_path is None,
        store.jobs.dom().contains(job.process_id) ==> store.jobs[job.process_id].process_id
            == job.process_id,
    ensures
        store.with_job(job).pending[i].log_path == store.with_job(job).jobs[job.process_id].log_path,
        store.with_job(job).pending[i].event_key == store.pending[i].event_key,
{
}

/// Tool calls, starts of commands and patches bring no event before the model:
/// none is queued, and no key becomes known.
pub proof fn lemma_records_wake_nobody(
    store: StoreView,
    input: ToolFinishInput,
    begin: ExecCommandBeginEvent,
    item: FileChangeItem,
)
    ensures
        store.tool_finished(input).pending.len() == store.pending.len(),
        store.tool_finished(input).keys == store.keys,
        store.command_begun(begin).pending.len() == store.pending.len(),
        store.command_begun(begin).keys == store.keys,
        store.file_changed(item).pending == store.pending,
        store.file_changed(item).keys == store.keys,
{
}

/// A command that ends well and did not ask to be told of it wakes nobody, and
/// neither does one that is not tracked.
pub proof fn lemma_quiet_end_wakes_nobody(store: StoreView, end: ExecCommandEndEvent)
    requires
        store.knows(end) ==> end.exit_code == 0 && end.status is Completed && !store.jobs[
            end.process_id->0@
        ].asks_for_exit(),
    ensures
        store.command_ended(end).pending == store.pending,
        store.command_ended(end).keys == store.keys,
{
}

/// A tracked command that fails, or that asked to be told of its end, is
/// reported: its event is known afterwards.
pub proof fn lemma_telling_end_is_known(store: StoreView, end: ExecCommandEndEvent)
    requires
        store.knows(end),
        end.exit_code != 0 || !(end.status is Completed) || store.jobs[
            end.process_id->0@
        ].asks_for_exit(),
    ensures
        is_known(
            store.command_ended(end),
            EventView::ended(store.jobs[end.process_id->0@], end).event_key,
        ),
{
    lemma_enqueued_is_known(
        store.command_over(end),
        EventView::ended(store.jobs[end.process_id->0@], end),
    );
}

/// A fact that is recorded a second time, by whichever call and whenever,
/// changes nothing.
pub proof fn lemma_fact_is_recorded_once(
    store: StoreView,
    args: RecordLinkContextArgs,
    again: RecordLinkContextArgs,
    first: (Seq<char>, Seq<char>, Option<i64>),
    second: (Seq<char>, Seq<char>, Option<i64>),
)
    requires
        !is_blank(args.summary@),
        args.kind == again.kind,
        trim(args.summary@) == trim(again.summary@),
    ensures
        store.fact_recorded(args, first.0, first.1, first.2).fact_recorded(
            again,
            second.0,
            second.1,
            second.2,
        ) == store.fact_recorded(args, first.0, first.1, first.2),
{
    lemma_record_twice(store.state, store.reports, args, again, first, second);
}

} // verus!
