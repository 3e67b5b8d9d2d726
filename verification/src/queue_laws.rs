//! What holds of events that wait: what is put back, what a restart takes over,
//! what is reported, and what a turn shows.

use vstd::prelude::*;

use crate::choices::{is_choice, lemma_choice_step, lemma_no_choice, lemma_same_choice};
use crate::context::{ContextView, ThreadGoal};
use crate::jobs::NativeBackgroundJob;
use crate::output_stream::{new_events, notified_after};
use crate::pending::{event_views, first_pending, key_position, lemma_key_position, put_back};
use crate::evidence::record_views;
use crate::persistence::{
    first_events, first_jobs, first_keys, taken_over, writes, PersistedLinkContext,
};
use crate::split::join;
use crate::store::StoreView;
use crate::text::texts;
use crate::text_laws::lemma_join_both;
use crate::trigger_eval::FiredView;
use crate::trigger_events::EventView;
use crate::turns::{rendered_events, steering_text, turn_facts};

verus! {

/// Whether an event of a list is put back: no event with its key waits, nor
/// stands behind it in the list.
pub open spec fn is_missing(pending: Seq<EventView>, events: Seq<EventView>, i: int) -> bool {
    &&& forall|j: int|
        0 <= j < pending.len() ==> (#[trigger] pending[j]).event_key != events[i].event_key
    &&& forall|j: int|
        i < j < events.len() ==> (#[trigger] events[j]).event_key != events[i].event_key
}

/// Whether the chosen positions are those of the events that are put back.
pub open spec fn chooses_missing(
    at: Seq<int>,
    pending: Seq<EventView>,
    events: Seq<EventView>,
) -> bool {
    is_choice(at, events.len() as int, |i: int| is_missing(pending, events, i))
}

proof fn lemma_missing_places(pending: Seq<EventView>, events: Seq<EventView>) -> (at: Seq<int>)
    ensures
        chooses_missing(at, pending, events),
        put_back(pending, events) == Seq::new(at.len(), |j: int| events[at[j]]) + pending,
    decreases events.len(),
{
    let chosen = |i: int| is_missing(pending, events, i);
    if events.len() == 0 {
        lemma_no_choice(chosen);
        let at = Seq::<int>::empty();
        assert(put_back(pending, events) =~= Seq::new(at.len(), |j: int| events[at[j]]) + pending);
        at
    } else {
        let rest = events.drop_last();
        let n = rest.len() as int;
        let last = events.last();
        let waits = key_position(pending, last.event_key) is Some;
        lemma_key_position(pending, last.event_key);
        let more = if waits {
            pending
        } else {
            seq![last] + pending
        };
        let at = lemma_missing_places(more, rest);
        let known = |i: int| is_missing(more, rest, i);
        assert forall|i: int| 0 <= i < n implies #[trigger] known(i) == chosen(i) by {
            assert(rest[i] == events[i]);
            assert(events[n] == last);
            if known(i) {
                assert forall|j: int| 0 <= j < pending.len() implies (
                #[trigger] pending[j]).event_key != events[i].event_key by {
                    if waits {
                        assert(more[j] == pending[j]);
                    } else {
                        assert(more[j + 1] == pending[j]);
                    }
                }
                assert forall|j: int| i < j < events.len() implies (
                #[trigger] events[j]).event_key != events[i].event_key by {
                    if j < n {
                        assert(rest[j] == events[j]);
                    } else if waits {
                        let k = key_position(pending, last.event_key)->0;
                        assert(more[k].event_key != events[i].event_key);
                    } else {
                        assert(more[0] == last);
                    }
                }
            }
            if chosen(i) {
                assert forall|j: int| 0 <= j < more.len() implies (#[trigger] more[j]).event_key
                    != rest[i].event_key by {
                    if waits {
                        assert(more[j] == pending[j]);
                    } else if j == 0 {
                        assert(events[n].event_key != events[i].event_key);
                    } else {
                        assert(more[j] == pending[j - 1]);
                    }
                }
                assert forall|j: int| i < j < rest.len() implies (#[trigger] rest[j]).event_key
                    != rest[i].event_key by {
                    assert(rest[j] == events[j]);
                }
            }
        }
        lemma_same_choice(at, n, known, chosen);
        lemma_choice_step(at, n, chosen);
        if waits {
            let k = key_position(pending, last.event_key)->0;
            assert(pending[k].event_key == events[n].event_key);
            assert(!chosen(n));
            assert(put_back(pending, events) =~= Seq::new(at.len(), |j: int| events[at[j]])
                + pending);
            at
        } else {
            assert(chosen(n)) by {
                assert forall|j: int| 0 <= j < pending.len() implies (
                #[trigger] pending[j]).event_key != events[n].event_key by {}
            }
            let all = at.push(n);
            assert(put_back(pending, events) =~= Seq::new(all.len(), |j: int| events[all[j]])
                + pending);
            all
        }
    }
}

/// Events that are put back stand in front of those that wait, in their order.
/// One whose key waits is left out, and of several with one key the last is
/// put back. At most sixteen are kept, the first ones.
pub proof fn lemma_events_are_put_back_in_front(pending: Seq<EventView>, events: Seq<EventView>)
    ensures
        exists|at: Seq<int>| #[trigger]
            chooses_missing(at, pending, events) && put_back(pending, events) == Seq::new(
                at.len(),
                |j: int| events[at[j]],
            ) + pending,
        put_back(pending, events).len() <= 16 ==> first_pending(put_back(pending, events))
            == put_back(pending, events),
        put_back(pending, events).len() > 16 ==> first_pending(put_back(pending, events))
            == put_back(pending, events).take(16),
{
    let at = lemma_missing_places(pending, events);
}

/// Whether the chosen positions are those of the events whose key stands there
/// for the first time.
pub open spec fn chooses_first_events(at: Seq<int>, events: Seq<EventView>) -> bool {
    is_choice(
        at,
        events.len() as int,
        |i: int|
            forall|j: int|
                0 <= j < i ==> (#[trigger] events[j]).event_key != events[i].event_key,
    )
}

proof fn lemma_first_event_places(events: Seq<EventView>) -> (at: Seq<int>)
    ensures
        chooses_first_events(at, events),
        first_events(events) == Seq::new(at.len(), |j: int| events[at[j]]),
        forall|key: Seq<char>|
            (exists|i: int|
                0 <= i < events.len() && (#[trigger] events[i]).event_key == key) ==> #[trigger]
                key_position(first_events(events), key) is Some,
    decreases events.len(),
{
    let chosen = |i: int|
        forall|j: int| 0 <= j < i ==> (#[trigger] events[j]).event_key != events[i].event_key;
    if events.len() == 0 {
        lemma_no_choice(chosen);
        let at = Seq::<int>::empty();
        assert(first_events(events) =~= Seq::new(at.len(), |j: int| events[at[j]]));
        at
    } else {
        let rest = events.drop_last();
        let n = rest.len() as int;
        let last = events.last();
        let before = first_events(rest);
        let at = lemma_first_event_places(rest);
        let known = |i: int|
            forall|j: int| 0 <= j < i ==> (#[trigger] rest[j]).event_key != rest[i].event_key;
        assert forall|i: int| 0 <= i < n implies #[trigger] known(i) == chosen(i) by {
            assert(rest[i] == events[i]);
            if known(i) {
                assert forall|j: int| 0 <= j < i implies (#[trigger] events[j]).event_key
                    != events[i].event_key by {
                    assert(rest[j] == events[j]);
                }
            }
            if chosen(i) {
                assert forall|j: int| 0 <= j < i implies (#[trigger] rest[j]).event_key
                    != rest[i].event_key by {
                    assert(rest[j] == events[j]);
                }
            }
        }
        lemma_same_choice(at, n, known, chosen);
        lemma_choice_step(at, n, chosen);
        lemma_key_position(before, last.event_key);
        assert(events[n] == last);
        let seen = key_position(before, last.event_key) is Some;
        if seen {
            let k = key_position(before, last.event_key)->0;
            assert(before[k] == rest[at[k]]);
            assert(0 <= at[k] < n);
            assert(events[at[k]].event_key == events[n].event_key);
            assert(!chosen(n));
        } else {
            assert forall|j: int| 0 <= j < n implies (#[trigger] events[j]).event_key
                != events[n].event_key by {
                assert(rest[j] == events[j]);
                if rest[j].event_key == last.event_key {
                    assert(key_position(before, last.event_key) is Some);
                }
            }
            assert(chosen(n));
        }
        let more = if seen {
            at
        } else {
            at.push(n)
        };
        assert(first_events(events) =~= Seq::new(more.len(), |j: int| events[more[j]]));
        assert forall|key: Seq<char>|
            (exists|i: int|
                0 <= i < events.len() && (#[trigger] events[i]).event_key == key) implies #[trigger]
        key_position(first_events(events), key) is Some by {
            let i = choose|i: int| 0 <= i < events.len() && (#[trigger] events[i]).event_key == key;
            lemma_key_position(first_events(events), key);
            lemma_key_position(before, key);
            if i < n {
                assert(rest[i] == events[i]);
                let k = key_position(before, key)->0;
                assert(first_events(events)[k] == before[k]);
            } else if !seen {
                assert(first_events(events)[before.len() as int] == last);
            }
        }
        more
    }
}

/// Of the events that are read, those are taken over whose key stands there for
/// the first time, in order.
pub proof fn lemma_first_of_each_key_is_taken_over(events: Seq<EventView>)
    ensures
        exists|at: Seq<int>| #[trigger]
            chooses_first_events(at, events) && first_events(events) == Seq::new(
                at.len(),
                |j: int| events[at[j]],
            ),
{
    let at = lemma_first_event_places(events);
}

/// Whether the chosen positions are those of the texts that stand there for the
/// first time.
pub open spec fn chooses_first_keys(at: Seq<int>, keys: Seq<Seq<char>>) -> bool {
    is_choice(at, keys.len() as int, |i: int| !keys.take(i).contains(keys[i]))
}

proof fn lemma_first_key_places(keys: Seq<Seq<char>>) -> (at: Seq<int>)
    ensures
        chooses_first_keys(at, keys),
        first_keys(keys) == Seq::new(at.len(), |j: int| keys[at[j]]),
        forall|key: Seq<char>| #[trigger]
            first_keys(keys).contains(key) <==> keys.contains(key),
    decreases keys.len(),
{
    let chosen = |i: int| !keys.take(i).contains(keys[i]);
    if keys.len() == 0 {
        lemma_no_choice(chosen);
        let at = Seq::<int>::empty();
        assert(first_keys(keys) =~= Seq::new(at.len(), |j: int| keys[at[j]]));
        at
    } else {
        let rest = keys.drop_last();
        let n = rest.len() as int;
        let last = keys.last();
        let at = lemma_first_key_places(rest);
        let known = |i: int| !rest.take(i).contains(rest[i]);
        assert forall|i: int| 0 <= i < n implies #[trigger] known(i) == chosen(i) by {
            assert(rest.take(i) =~= keys.take(i));
        }
        lemma_same_choice(at, n, known, chosen);
        lemma_choice_step(at, n, chosen);
        assert(rest =~= keys.take(n));
        let more = if chosen(n) {
            at.push(n)
        } else {
            at
        };
        assert(first_keys(keys) =~= Seq::new(more.len(), |j: int| keys[more[j]]));
        assert(keys =~= rest.push(last));
        assert forall|key: Seq<char>| #[trigger] first_keys(keys).contains(
            key,
        ) <==> keys.contains(key) by {
            let before = first_keys(rest);
            let after = first_keys(keys);
            assert(before.contains(key) <==> rest.contains(key));
            if before.contains(key) {
                let k = choose|k: int| 0 <= k < before.len() && before[k] == key;
                assert(after[k] == key);
                let j = choose|j: int| 0 <= j < rest.len() && rest[j] == key;
                assert(keys[j] == key);
            }
            if after.contains(key) {
                let k = choose|k: int| 0 <= k < after.len() && after[k] == key;
                if k < before.len() {
                    assert(before[k] == key);
                } else {
                    assert(keys[n] == key);
                }
            }
            if keys.contains(key) && !rest.contains(key) {
                let k = choose|k: int| 0 <= k < keys.len() && keys[k] == key;
                if k < n {
                    assert(rest[k] == key);
                }
                assert(after[before.len() as int] == key);
            }
        }
        more
    }
}

/// Of the keys that are read, each is taken over once, where it stands first.
pub proof fn lemma_each_key_is_taken_over_once(keys: Seq<Seq<char>>)
    ensures
        exists|at: Seq<int>| #[trigger]
            chooses_first_keys(at, keys) && first_keys(keys) == Seq::new(
                at.len(),
                |j: int| keys[at[j]],
            ),
{
    let at = lemma_first_key_places(keys);
}

/// Whether one of the jobs is that of a session.
pub open spec fn names_session(jobs: Seq<NativeBackgroundJob>, id: Seq<char>) -> bool {
    exists|i: int| 0 <= i < jobs.len() && (#[trigger] jobs[i]).process_id@ == id
}

proof fn lemma_known_sessions(jobs: Seq<NativeBackgroundJob>, id: Seq<char>)
    ensures
        first_jobs(jobs).dom().contains(id) <==> names_session(jobs, id),
    decreases jobs.len(),
{
    if jobs.len() > 0 {
        let rest = jobs.drop_last();
        lemma_known_sessions(rest, id);
        assert(jobs[rest.len() as int] == jobs.last());
        assert(jobs.last()@.process_id == jobs.last().process_id@);
        if names_session(rest, id) {
            let k = choose|k: int| 0 <= k < rest.len() && (#[trigger] rest[k]).process_id@ == id;
            assert(jobs[k].process_id@ == id);
        }
        if names_session(jobs, id) {
            let k = choose|k: int| 0 <= k < jobs.len() && (#[trigger] jobs[k]).process_id@ == id;
            if k < rest.len() {
                assert(rest[k].process_id@ == id);
            }
        }
    }
}

/// The job of a session is the first that names the session, and there is one
/// exactly where a job names it.
pub proof fn lemma_first_job_of_session(jobs: Seq<NativeBackgroundJob>, i: int)
    requires
        0 <= i < jobs.len(),
        forall|j: int| 0 <= j < i ==> (#[trigger] jobs[j]).process_id@ != jobs[i].process_id@,
    ensures
        first_jobs(jobs).dom().contains(jobs[i].process_id@),
        first_jobs(jobs)[jobs[i].process_id@] == jobs[i]@,
        forall|id: Seq<char>| #[trigger]
            first_jobs(jobs).dom().contains(id) <==> names_session(jobs, id),
    decreases jobs.len(),
{
    let id = jobs[i].process_id@;
    let rest = jobs.drop_last();
    let n = rest.len() as int;
    assert(jobs[i]@.process_id == id);
    lemma_known_sessions(rest, id);
    if i < n {
        assert(rest[i] == jobs[i]);
        assert forall|j: int| 0 <= j < i implies (#[trigger] rest[j]).process_id@
            != rest[i].process_id@ by {
            assert(rest[j] == jobs[j]);
        }
        lemma_first_job_of_session(rest, i);
    } else if names_session(rest, id) {
        let k = choose|k: int| 0 <= k < rest.len() && (#[trigger] rest[k]).process_id@ == id;
        assert(jobs[k].process_id@ == id);
    }
    assert forall|id: Seq<char>| #[trigger] first_jobs(jobs).dom().contains(
        id,
    ) <==> names_session(jobs, id) by {
        lemma_known_sessions(jobs, id);
    }
}

/// After a restart the facts and the reports are as they were read, and of the
/// events and keys the last sixteen and the last hundred and twenty-eight are
/// taken over.
pub proof fn lemma_restart_takes_over(persisted: PersistedLinkContext, store: StoreView)
    ensures
        ({
            let after = taken_over(persisted);
            let events = first_events(event_views(persisted.pending_background_events@));
            let keys = first_keys(texts(persisted.background_event_keys@));
            &&& after.state == persisted.state@
            &&& after.jobs == first_jobs(persisted.background_jobs@)
            &&& after.reports == record_views(persisted.reports@)
            &&& events.len() <= 16 ==> after.pending == events
            &&& events.len() > 16 ==> after.pending == events.skip(events.len() - 16)
            &&& keys.len() <= 128 ==> after.keys == keys
            &&& keys.len() > 128 ==> after.keys == keys.skip(keys.len() - 128)
        }),
        writes(store, persisted) ==> persisted.version == 2 && persisted.state@ == store.state
            && record_views(persisted.reports@) == store.reports && event_views(
            persisted.pending_background_events@,
        ) == store.pending && texts(persisted.background_event_keys@) == store.keys,
{
}

/// The key under which a trigger of a process is noted.
pub open spec fn noted_as(process_id: Seq<char>, trigger: Seq<char>) -> Seq<char> {
    process_id + ":"@ + trigger
}

/// Whether the chosen positions are those of the events that are reported: their
/// trigger was not reported before, and did not fire earlier.
pub open spec fn chooses_reported(
    at: Seq<int>,
    notified: Set<Seq<char>>,
    process_id: Seq<char>,
    fired: Seq<FiredView>,
) -> bool {
    is_choice(
        at,
        fired.len() as int,
        |i: int|
            !notified.contains(noted_as(process_id, fired[i].trigger)) && forall|j: int|
                0 <= j < i ==> noted_as(process_id, (#[trigger] fired[j]).trigger) != noted_as(
                    process_id,
                    fired[i].trigger,
                ),
    )
}

proof fn lemma_noted(
    notified: Set<Seq<char>>,
    process_id: Seq<char>,
    fired: Seq<FiredView>,
    key: Seq<char>,
)
    ensures
        notified_after(notified, process_id, fired).contains(key) <==> notified.contains(key)
            || exists|i: int|
            0 <= i < fired.len() && noted_as(process_id, (#[trigger] fired[i]).trigger) == key,
    decreases fired.len(),
{
    if fired.len() > 0 {
        let rest = fired.drop_last();
        lemma_noted(notified, process_id, rest, key);
        assert(fired[rest.len() as int] == fired.last());
        if exists|i: int|
            0 <= i < rest.len() && noted_as(process_id, (#[trigger] rest[i]).trigger) == key {
            let i = choose|i: int|
                0 <= i < rest.len() && noted_as(process_id, (#[trigger] rest[i]).trigger) == key;
            assert(noted_as(process_id, fired[i].trigger) == key);
        }
        if exists|i: int|
            0 <= i < fired.len() && noted_as(process_id, (#[trigger] fired[i]).trigger) == key {
            let i = choose|i: int|
                0 <= i < fired.len() && noted_as(process_id, (#[trigger] fired[i]).trigger) == key;
            if i < rest.len() {
                assert(noted_as(process_id, rest[i].trigger) == key);
            }
        }
    }
}

proof fn lemma_reported_places(
    notified: Set<Seq<char>>,
    process_id: Seq<char>,
    fired: Seq<FiredView>,
) -> (at: Seq<int>)
    ensures
        chooses_reported(at, notified, process_id, fired),
        new_events(notified, process_id, fired) == Seq::new(at.len(), |j: int| fired[at[j]]),
    decreases fired.len(),
{
    let chosen = |i: int|
        !notified.contains(noted_as(process_id, fired[i].trigger)) && forall|j: int|
            0 <= j < i ==> noted_as(process_id, (#[trigger] fired[j]).trigger) != noted_as(
                process_id,
                fired[i].trigger,
            );
    if fired.len() == 0 {
        lemma_no_choice(chosen);
        let at = Seq::<int>::empty();
        assert(new_events(notified, process_id, fired) =~= Seq::new(
            at.len(),
            |j: int| fired[at[j]],
        ));
        at
    } else {
        let rest = fired.drop_last();
        let n = rest.len() as int;
        let at = lemma_reported_places(notified, process_id, rest);
        let known = |i: int|
            !notified.contains(noted_as(process_id, rest[i].trigger)) && forall|j: int|
                0 <= j < i ==> noted_as(process_id, (#[trigger] rest[j]).trigger) != noted_as(
                    process_id,
                    rest[i].trigger,
                );
        assert forall|i: int| 0 <= i < n implies #[trigger] known(i) == chosen(i) by {
            assert(rest[i] == fired[i]);
            if known(i) {
                assert forall|j: int| 0 <= j < i implies noted_as(
                    process_id,
                    (#[trigger] fired[j]).trigger,
                ) != noted_as(process_id, fired[i].trigger) by {
                    assert(rest[j] == fired[j]);
                }
            }
            if chosen(i) {
                assert forall|j: int| 0 <= j < i implies noted_as(
                    process_id,
                    (#[trigger] rest[j]).trigger,
                ) != noted_as(process_id, rest[i].trigger) by {
                    assert(rest[j] == fired[j]);
                }
            }
        }
        lemma_same_choice(at, n, known, chosen);
        lemma_choice_step(at, n, chosen);
        let key = noted_as(process_id, fired.last().trigger);
        lemma_noted(notified, process_id, rest, key);
        assert(fired[n] == fired.last());
        assert(chosen(n) <==> !notified_after(notified, process_id, rest).contains(key)) by {
            if chosen(n) && exists|i: int|
                0 <= i < rest.len() && noted_as(process_id, (#[trigger] rest[i]).trigger) == key {
                let i = choose|i: int|
                    0 <= i < rest.len() && noted_as(process_id, (#[trigger] rest[i]).trigger)
                        == key;
                assert(rest[i] == fired[i]);
            }
            if !notified_after(notified, process_id, rest).contains(key) {
                assert forall|j: int| 0 <= j < n implies noted_as(
                    process_id,
                    (#[trigger] fired[j]).trigger,
                ) != noted_as(process_id, fired[n].trigger) by {
                    assert(rest[j] == fired[j]);
                }
            }
        }
        let more = if chosen(n) {
            at.push(n)
        } else {
            at
        };
        assert(new_events(notified, process_id, fired) =~= Seq::new(
            more.len(),
            |j: int| fired[more[j]],
        ));
        more
    }
}

/// Of the triggers that fire, each is reported once and in order, unless it was
/// reported before.
pub proof fn lemma_new_firings_are_reported(
    notified: Set<Seq<char>>,
    process_id: Seq<char>,
    fired: Seq<FiredView>,
)
    ensures
        exists|at: Seq<int>| #[trigger]
            chooses_reported(at, notified, process_id, fired) && new_events(
                notified,
                process_id,
                fired,
            ) == Seq::new(at.len(), |j: int| fired[at[j]]),
{
    let at = lemma_reported_places(notified, process_id, fired);
}

/// Events are brought before the model in their order, a blank line between
/// them, each as it is rendered.
pub proof fn lemma_events_are_shown_in_order(a: Seq<EventView>, b: Seq<EventView>)
    ensures
        a.len() > 0 && b.len() > 0 ==> steering_text(a + b) == steering_text(a) + "\n\n"@
            + steering_text(b),
        a.len() == 1 ==> steering_text(a) == a[0].rendered(),
        a.len() == 0 ==> steering_text(a).len() == 0,
{
    assert(rendered_events(a + b) =~= rendered_events(a) + rendered_events(b));
    if a.len() > 0 && b.len() > 0 {
        lemma_join_both(rendered_events(a), rendered_events(b), "\n\n"@);
    }
    if a.len() == 1 {
        assert(join(rendered_events(a), "\n\n"@) == rendered_events(a)[0]);
    }
}

/// A turn shows the facts of the thread, over them what was recorded, and over
/// these the facts of the turn; what is missing leaves the rest as it is. The
/// goal is shown on top unless it is complete.
pub proof fn lemma_turn_shows_facts(
    thread: ContextView,
    recorded: ContextView,
    turn: ContextView,
    goal: ThreadGoal,
)
    ensures
        turn_facts(Some(thread), None, None, None) == thread,
        turn_facts(Some(thread), Some(recorded), None, None) == thread.merged(recorded),
        turn_facts(Some(thread), None, Some(turn), None) == thread.merged(turn),
        turn_facts(Some(thread), Some(recorded), Some(turn), None) == thread.merged(
            recorded,
        ).merged(turn),
        forall|t: Option<ContextView>, r: Option<ContextView>, u: Option<ContextView>|
            #[trigger] turn_facts(t, r, u, Some(goal)) == if goal.status is Complete {
                turn_facts(t, r, u, None)
            } else {
                turn_facts(t, r, u, None).with_goal(goal)
            },
        turn_facts(None, None, None, None).active_goal is None,
        turn_facts(None, None, None, None).success_criteria.len() == 0,
        turn_facts(None, None, None, None).current_progress.len() == 0,
        turn_facts(None, None, None, None).next_action is None,
        turn_facts(None, None, None, None).files_touched.len() == 0,
        turn_facts(None, None, None, None).verified_evidence.len() == 0,
        turn_facts(None, None, None, None).active_background_jobs.len() == 0,
        turn_facts(None, None, None, None).open_blockers.len() == 0,
{
}

} // verus!
