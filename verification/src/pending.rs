//! The queue of background events that wait to be shown.

use vstd::prelude::*;

use crate::jobs::{JobView, NativeBackgroundJob};
use crate::lists::{drop_oldest, keep_last};
use crate::text::str_eq;
use crate::trigger_events::{BackgroundTriggerEvent, EventView};

verus! {

/// Most events that wait at a time.
pub const MAX_PENDING_BACKGROUND_EVENTS: usize = 16;

/// The texts of a list of events.
pub open spec fn event_views(events: Seq<BackgroundTriggerEvent>) -> Seq<EventView> {
    Seq::new(events.len(), |i: int| events[i]@)
}

/// The position of the first event with a key.
pub open spec fn key_position(events: Seq<EventView>, key: Seq<char>) -> Option<int>
    decreases events.len(),
{
    if events.len() == 0 {
        None
    } else {
        match key_position(events.drop_last(), key) {
            Some(i) => Some(i),
            None => if events.last().event_key == key {
                Some(events.len() - 1)
            } else {
                None
            },
        }
    }
}

/// Whether no two events share a key.
pub open spec fn distinct_keys(events: Seq<EventView>) -> bool {
    forall|i: int, j: int|
        0 <= i < j < events.len() ==> (#[trigger] events[i]).event_key != (
        #[trigger] events[j]).event_key
}

/// The events that `event` does not make needless.
pub open spec fn not_superseded(events: Seq<EventView>, event: EventView) -> Seq<EventView>
    decreases events.len(),
{
    if events.len() == 0 {
        Seq::empty()
    } else if event.supersedes(events.last()) {
        not_superseded(events.drop_last(), event)
    } else {
        not_superseded(events.drop_last(), event).push(events.last())
    }
}

/// The events, with those of the job's session completed from the job.
pub open spec fn with_job_facts(events: Seq<EventView>, job: JobView) -> Seq<EventView> {
    Seq::new(
        events.len(),
        |i: int|
            if events[i].process_id == job.process_id {
                events[i].with_job(job)
            } else {
                events[i]
            },
    )
}

/// `pending` with `events` put back in front of it, in their order; an event
/// whose key is pending is left out.
pub open spec fn put_back(pending: Seq<EventView>, events: Seq<EventView>) -> Seq<EventView>
    decreases events.len(),
{
    if events.len() == 0 {
        pending
    } else if key_position(pending, events.last().event_key) is Some {
        put_back(pending, events.drop_last())
    } else {
        put_back(seq![events.last()] + pending, events.drop_last())
    }
}

/// At most the first [`MAX_PENDING_BACKGROUND_EVENTS`] events.
pub open spec fn first_pending(events: Seq<EventView>) -> Seq<EventView> {
    if events.len() > MAX_PENDING_BACKGROUND_EVENTS {
        events.take(MAX_PENDING_BACKGROUND_EVENTS as int)
    } else {
        events
    }
}

pub proof fn lemma_event_views_push(
    events: Seq<BackgroundTriggerEvent>,
    event: BackgroundTriggerEvent,
)
    ensures
        event_views(events.push(event)) == event_views(events).push(event@),
{
    assert(event_views(events.push(event)) =~= event_views(events).push(event@));
}

/// Where `key_position` stops.
pub proof fn lemma_key_position(events: Seq<EventView>, key: Seq<char>)
    ensures
        key_position(events, key) matches Some(i) ==> 0 <= i < events.len() && events[i].event_key
            == key && forall|j: int| 0 <= j < i ==> (#[trigger] events[j]).event_key != key,
        key_position(events, key) is None ==> forall|j: int|
            0 <= j < events.len() ==> (#[trigger] events[j]).event_key != key,
    decreases events.len(),
{
    if events.len() > 0 {
        let rest = events.drop_last();
        lemma_key_position(rest, key);
        assert forall|j: int|
            0 <= j < rest.len() implies #[trigger] events[j] == rest[j] by {}
    }
}

/// The position of the first event with a key.
pub fn find_key(events: &Vec<BackgroundTriggerEvent>, key: &str) -> (r: Option<usize>)
    ensures
        r matches Some(i) ==> i < events.len() && key_position(event_views(events@), key@) == Some(
            i as int,
        ),
        r is None ==> key_position(event_views(events@), key@) is None,
{
    let ghost all = event_views(events@);
    let mut i: usize = 0;
    while i < events.len()
        invariant
            i <= events.len(),
            all == event_views(events@),
            forall|j: int| 0 <= j < i ==> (#[trigger] all[j]).event_key != key@,
        decreases events.len() - i,
    {
        if str_eq(events[i].event_key.as_str(), key) {
            proof {
                lemma_key_position(all, key@);
                assert(all[i as int].event_key == key@);
            }
            return Some(i);
        }
        assert(all[i as int].event_key != key@);
        i += 1;
    }
    proof {
        lemma_key_position(all, key@);
    }
    None
}

/// Drops the events that `event` makes needless.
pub fn remove_superseded(
    events: &mut Vec<BackgroundTriggerEvent>,
    event: &BackgroundTriggerEvent,
)
    ensures
        event_views(final(events)@) == not_superseded(event_views(old(events)@), event@),
{
    let ghost all = event_views(events@);
    let mut kept: Vec<BackgroundTriggerEvent> = Vec::new();
    let mut i: usize = 0;
    assert(all.take(0) =~= Seq::empty());
    assert(event_views(kept@) =~= Seq::empty());
    while i < events.len()
        invariant
            i <= events.len(),
            all == event_views(events@),
            event_views(kept@) == not_superseded(all.take(i as int), event@),
        decreases events.len() - i,
    {
        assert(all.take(i + 1).drop_last() =~= all.take(i as int));
        assert(all.take(i + 1).last() == events@[i as int]@);
        if !event.supersedes_pending(&events[i]) {
            let copy = events[i].clone();
            proof {
                lemma_event_views_push(kept@, copy);
            }
            kept.push(copy);
        }
        i += 1;
    }
    assert(all.take(i as int) =~= all);
    *events = kept;
}

/// Completes the events of a job's session from the job.
pub fn refresh_for_job(events: &mut Vec<BackgroundTriggerEvent>, job: &NativeBackgroundJob)
    ensures
        event_views(final(events)@) == with_job_facts(event_views(old(events)@), job@),
{
    let ghost all = event_views(events@);
    let ghost goal = with_job_facts(all, job@);
    let mut done: Vec<BackgroundTriggerEvent> = Vec::new();
    let mut i: usize = 0;
    assert(event_views(done@) =~= goal.take(0));
    while i < events.len()
        invariant
            i <= events.len(),
            all == event_views(events@),
            goal == with_job_facts(all, job@),
            event_views(done@) == goal.take(i as int),
        decreases events.len() - i,
    {
        let mut copy = events[i].clone();
        if str_eq(copy.process_id.as_str(), job.process_id.as_str()) {
            copy.merge_job_metadata(job);
        }
        assert(copy@ == goal[i as int]);
        proof {
            lemma_event_views_push(done@, copy);
            assert(goal.take(i + 1) =~= goal.take(i as int).push(goal[i as int]));
        }
        done.push(copy);
        i += 1;
    }
    assert(goal.take(i as int) =~= goal);
    *events = done;
}

/// Adds an event, then drops the oldest beyond the bound.
pub fn push_bounded(events: &mut Vec<BackgroundTriggerEvent>, event: BackgroundTriggerEvent)
    ensures
        event_views(final(events)@) == keep_last(
            event_views(old(events)@).push(event@),
            MAX_PENDING_BACKGROUND_EVENTS as nat,
        ),
{
    proof {
        lemma_event_views_push(events@, event);
    }
    events.push(event);
    let ghost before = events@;
    drop_oldest(events, MAX_PENDING_BACKGROUND_EVENTS);
    assert(event_views(events@) =~= keep_last(
        event_views(before),
        MAX_PENDING_BACKGROUND_EVENTS as nat,
    ));
}

/// Puts events back in front of those that wait.
pub fn put_back_front(
    pending: &mut Vec<BackgroundTriggerEvent>,
    events: Vec<BackgroundTriggerEvent>,
)
    ensures
        event_views(final(pending)@) == if events@.len() == 0 {
            event_views(old(pending)@)
        } else {
            first_pending(put_back(event_views(old(pending)@), event_views(events@)))
        },
{
    if events.len() == 0 {
        return;
    }
    let ghost goal = put_back(event_views(pending@), event_views(events@));
    let ghost all = event_views(events@);
    let mut i: usize = events.len();
    assert(all.take(i as int) =~= all);
    while i > 0
        invariant
            i <= events.len(),
            all == event_views(events@),
            put_back(event_views(pending@), all.take(i as int)) == goal,
        decreases i,
    {
        let ghost before = event_views(pending@);
        assert(all.take(i as int).drop_last() =~= all.take(i - 1));
        assert(all.take(i as int).last() == events@[i - 1]@);
        if find_key(&*pending, events[i - 1].event_key.as_str()).is_none() {
            pending.insert(0, events[i - 1].clone());
            assert(event_views(pending@) =~= seq![events@[i - 1]@] + before);
        }
        i -= 1;
    }
    assert(all.take(0) =~= Seq::empty());
    let ghost before = pending@;
    pending.truncate(MAX_PENDING_BACKGROUND_EVENTS);
    assert(event_views(pending@) =~= first_pending(event_views(before)));
}

pub proof fn lemma_superseded_keeps(events: Seq<EventView>, event: EventView)
    ensures
        not_superseded(events, event).len() <= events.len(),
        distinct_keys(events) ==> distinct_keys(not_superseded(events, event)),
        forall|i: int|
            0 <= i < not_superseded(events, event).len() ==> events.contains(
                #[trigger] not_superseded(events, event)[i],
            ) && !event.supersedes(not_superseded(events, event)[i]),
        forall|i: int|
            0 <= i < events.len() && !event.supersedes(events[i]) ==> not_superseded(
                events,
                event,
            ).contains(#[trigger] events[i]),
    decreases events.len(),
{
    if events.len() > 0 {
        let rest = events.drop_last();
        lemma_superseded_keeps(rest, event);
        let kept = not_superseded(rest, event);
        let r = not_superseded(events, event);
        assert forall|i: int, j: int|
            distinct_keys(events) && 0 <= i < j < rest.len() implies (
        #[trigger] rest[i]).event_key != (#[trigger] rest[j]).event_key by {
            assert(rest[i] == events[i] && rest[j] == events[j]);
        }
        assert forall|i: int| 0 <= i < r.len() implies events.contains(#[trigger] r[i])
            && !event.supersedes(r[i]) by {
            if i < kept.len() {
                assert(r[i] == kept[i]);
                let k = choose|k: int| 0 <= k < rest.len() && rest[k] == kept[i];
                assert(events[k] == r[i]);
            } else {
                assert(events[events.len() - 1] == r[i]);
            }
        }
        assert forall|i: int| 0 <= i < events.len() && !event.supersedes(events[i]) implies r.contains(
            #[trigger] events[i],
        ) by {
            if i < rest.len() {
                assert(rest[i] == events[i]);
                let k = choose|k: int| 0 <= k < kept.len() && kept[k] == rest[i];
                assert(r[k] == events[i]);
            } else {
                assert(r[r.len() - 1] == events[i]);
            }
        }
        if distinct_keys(events) {
            assert forall|i: int, j: int| 0 <= i < j < r.len() implies (
            #[trigger] r[i]).event_key != (#[trigger] r[j]).event_key by {
                assert(r[i] == kept[i]);
                if j < kept.len() {
                    assert(r[j] == kept[j]);
                } else {
                    let k = choose|k: int| 0 <= k < rest.len() && rest[k] == kept[i];
                    assert(events[k] == r[i]);
                    assert(events[events.len() - 1] == r[j]);
                }
            }
        }
    }
}

/// Putting back keeps keys distinct.
pub proof fn lemma_put_back_distinct(pending: Seq<EventView>, events: Seq<EventView>)
    requires
        distinct_keys(pending),
    ensures
        distinct_keys(put_back(pending, events)),
    decreases events.len(),
{
    if events.len() > 0 {
        let key = events.last().event_key;
        lemma_key_position(pending, key);
        if key_position(pending, key) is None {
            let more = seq![events.last()] + pending;
            assert forall|i: int, j: int| 0 <= i < j < more.len() implies (
            #[trigger] more[i]).event_key != (#[trigger] more[j]).event_key by {
                assert(more[j] == pending[j - 1]);
                if i > 0 {
                    assert(more[i] == pending[i - 1]);
                }
            }
            lemma_put_back_distinct(more, events.drop_last());
        } else {
            lemma_put_back_distinct(pending, events.drop_last());
        }
    }
}

/// Events with distinct keys that are put back where no key of theirs waits
/// stand in front, in their order.
pub proof fn lemma_put_back_all(pending: Seq<EventView>, events: Seq<EventView>)
    requires
        distinct_keys(events),
        forall|i: int|
            0 <= i < events.len() ==> key_position(pending, (#[trigger] events[i]).event_key)
                is None,
    ensures
        put_back(pending, events) == events + pending,
    decreases events.len(),
{
    if events.len() == 0 {
        assert(events + pending =~= pending);
    } else {
        let rest = events.drop_last();
        let last = events.last();
        let more = seq![last] + pending;
        assert(last == events[events.len() - 1]);
        assert forall|i: int, j: int| 0 <= i < j < rest.len() implies (
        #[trigger] rest[i]).event_key != (#[trigger] rest[j]).event_key by {
            assert(rest[i] == events[i] && rest[j] == events[j]);
        }
        assert forall|i: int| 0 <= i < rest.len() implies key_position(
            more,
            (#[trigger] rest[i]).event_key,
        ) is None by {
            assert(rest[i] == events[i]);
            lemma_key_position(pending, rest[i].event_key);
            lemma_key_position(more, rest[i].event_key);
            if key_position(more, rest[i].event_key) is Some {
                let k = key_position(more, rest[i].event_key)->0;
                if k > 0 {
                    assert(more[k] == pending[k - 1]);
                }
            }
        }
        lemma_put_back_all(more, rest);
        assert(rest + more =~= events + pending);
    }
}

} // verus!
