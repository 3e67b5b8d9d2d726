//! Where the Link context of a thread is kept on disk.
//!
//! One JSON file per thread under `<codex_home>/link/context/`, so that the
//! capsule, the background-job table and the events that wait survive process
//! restarts and thread resume, not just transcript compaction.

use vstd::prelude::*;

use crate::context::LinkContextState;
use crate::evidence::{record_views, EvidenceRecord};
use crate::job_table::{
    distinct_sessions, find_job, has_job, job_map, lemma_job_map, lemma_map_push,
};
use crate::jobs::{JobView, NativeBackgroundJob};
use crate::lists::{keep_last, push_unique, with_unique};
use crate::pending::{
    distinct_keys, event_views, find_key, key_position, lemma_event_views_push, lemma_key_position,
    MAX_PENDING_BACKGROUND_EVENTS,
};
use crate::store::{LinkContextStore, StoreView, MAX_RECORDED_BACKGROUND_EVENT_KEYS};
use crate::text::{owned, texts};
use crate::trigger_events::{BackgroundTriggerEvent, EventView};

verus! {

/// The version of the file format.
pub const PERSISTED_LINK_CONTEXT_VERSION: u32 = 2;

/// The components of the path of a thread's file, below the Codex home.
pub fn link_context_file_components(thread_id: &str) -> (r: Vec<String>)
    ensures
        texts(r@) == seq!["link"@, "context"@, thread_id@ + ".json"@],
{
    let mut name = owned(thread_id);
    name.append(".json");
    let r: Vec<String> = vec![owned("link"), owned("context"), name];
    assert(texts(r@) =~= seq!["link"@, "context"@, thread_id@ + ".json"@]);
    r
}

/// Everything that a store keeps, to be written and read.
#[derive(Debug)]
pub struct PersistedLinkContext {
    pub version: u32,
    pub state: LinkContextState,
    pub background_jobs: Vec<NativeBackgroundJob>,
    pub pending_background_events: Vec<BackgroundTriggerEvent>,
    pub background_event_keys: Vec<String>,
    pub reports: Vec<EvidenceRecord>,
}

impl View for PersistedLinkContext {
    type V = StoreView;

    open spec fn view(&self) -> StoreView {
        StoreView {
            state: self.state@,
            jobs: job_map(self.background_jobs@),
            pending: event_views(self.pending_background_events@),
            keys: texts(self.background_event_keys@),
            reports: record_views(self.reports@),
        }
    }
}

/// Whether a store can be written like this: no session has two jobs, and the
/// bounds of a store hold.
pub open spec fn is_store(persisted: PersistedLinkContext) -> bool {
    distinct_sessions(persisted.background_jobs@) && persisted@.is_bounded()
}

/// Whether a store is written like this.
pub open spec fn writes(store: StoreView, persisted: PersistedLinkContext) -> bool {
    &&& persisted.version == PERSISTED_LINK_CONTEXT_VERSION
    &&& persisted@ == store
    &&& is_store(persisted)
}

/// The job of each session, the first where there are several.
pub open spec fn first_jobs(jobs: Seq<NativeBackgroundJob>) -> Map<Seq<char>, JobView>
    decreases jobs.len(),
{
    if jobs.len() == 0 {
        Map::empty()
    } else {
        let before = first_jobs(jobs.drop_last());
        let job = jobs.last()@;
        if before.dom().contains(job.process_id) {
            before
        } else {
            before.insert(job.process_id, job)
        }
    }
}

/// The events, the first where several have one key.
pub open spec fn first_events(events: Seq<EventView>) -> Seq<EventView>
    decreases events.len(),
{
    if events.len() == 0 {
        Seq::empty()
    } else {
        let before = first_events(events.drop_last());
        match key_position(before, events.last().event_key) {
            Some(_) => before,
            None => before.push(events.last()),
        }
    }
}

/// The keys, each once.
pub open spec fn first_keys(keys: Seq<Seq<char>>) -> Seq<Seq<char>>
    decreases keys.len(),
{
    if keys.len() == 0 {
        Seq::empty()
    } else {
        with_unique(first_keys(keys.drop_last()), keys.last())
    }
}

/// What is taken over of what was read: everything, without what is there
/// twice, and without the oldest events and keys beyond the bounds of a store.
pub open spec fn taken_over(persisted: PersistedLinkContext) -> StoreView {
    StoreView {
        state: persisted.state@,
        jobs: first_jobs(persisted.background_jobs@),
        pending: keep_last(
            first_events(event_views(persisted.pending_background_events@)),
            MAX_PENDING_BACKGROUND_EVENTS as nat,
        ),
        keys: keep_last(
            first_keys(texts(persisted.background_event_keys@)),
            MAX_RECORDED_BACKGROUND_EVENT_KEYS as nat,
        ),
        reports: record_views(persisted.reports@),
    }
}

proof fn lemma_first_jobs(jobs: Seq<NativeBackgroundJob>)
    requires
        distinct_sessions(jobs),
    ensures
        first_jobs(jobs) == job_map(jobs),
    decreases jobs.len(),
{
    if jobs.len() == 0 {
        assert(job_map(jobs) =~= Map::empty());
    } else {
        let rest = jobs.drop_last();
        let job = jobs.last();
        assert forall|i: int, j: int| 0 <= i < j < rest.len() implies (
        #[trigger] rest[i])@.process_id != (#[trigger] rest[j])@.process_id by {
            assert(rest[i] == jobs[i] && rest[j] == jobs[j]);
        }
        lemma_first_jobs(rest);
        assert(!has_job(rest, job@.process_id)) by {
            if has_job(rest, job@.process_id) {
                let k = choose|k: int|
                    0 <= k < rest.len() && (#[trigger] rest[k])@.process_id == job@.process_id;
                assert(jobs[k]@.process_id != jobs[jobs.len() - 1]@.process_id);
            }
        }
        lemma_map_push(rest, job);
        assert(rest.push(job) =~= jobs);
    }
}

/// Of the events that are left, no two have one key, and where none had, all
/// are left.
pub proof fn lemma_first_events(events: Seq<EventView>)
    ensures
        distinct_keys(first_events(events)),
        distinct_keys(events) ==> first_events(events) == events,
    decreases events.len(),
{
    if events.len() == 0 {
        assert(first_events(events) =~= events);
    } else {
        let rest = events.drop_last();
        let before = first_events(rest);
        let key = events.last().event_key;
        lemma_first_events(rest);
        lemma_key_position(before, key);
        if distinct_keys(events) {
            assert forall|i: int, j: int| 0 <= i < j < rest.len() implies (
            #[trigger] rest[i]).event_key != (#[trigger] rest[j]).event_key by {
                assert(rest[i] == events[i] && rest[j] == events[j]);
            }
            if key_position(before, key) is Some {
                let k = key_position(before, key)->0;
                assert(events[k].event_key != events[events.len() - 1].event_key);
            }
            assert(rest.push(events.last()) =~= events);
        }
        if key_position(before, key) is None {
            let after = before.push(events.last());
            assert forall|i: int, j: int| 0 <= i < j < after.len() implies (
            #[trigger] after[i]).event_key != (#[trigger] after[j]).event_key by {
                assert(after[i] == before[i]);
                if j < before.len() {
                    assert(after[j] == before[j]);
                }
            }
        }
    }
}

/// Of the keys that are left, none stands twice, and where none did, all are
/// left.
pub proof fn lemma_first_keys(keys: Seq<Seq<char>>)
    ensures
        first_keys(keys).no_duplicates(),
        keys.no_duplicates() ==> first_keys(keys) == keys,
    decreases keys.len(),
{
    if keys.len() == 0 {
        assert(first_keys(keys) =~= keys);
    } else {
        let rest = keys.drop_last();
        lemma_first_keys(rest);
        if keys.no_duplicates() {
            assert forall|i: int, j: int|
                0 <= i < rest.len() && 0 <= j < rest.len() && i != j implies rest[i]
                != rest[j] by {
                assert(rest[i] == keys[i] && rest[j] == keys[j]);
            }
            if rest.contains(keys.last()) {
                let k = choose|k: int| 0 <= k < rest.len() && rest[k] == keys.last();
                assert(keys[k] == keys[keys.len() - 1]);
            }
            assert(rest.push(keys.last()) =~= keys);
        }
    }
}

/// What is taken over keeps the bounds of a store.
pub proof fn lemma_taken_over_bounded(persisted: PersistedLinkContext)
    ensures
        taken_over(persisted).is_bounded(),
{
    let events = first_events(event_views(persisted.pending_background_events@));
    let keys = first_keys(texts(persisted.background_event_keys@));
    lemma_first_events(event_views(persisted.pending_background_events@));
    lemma_first_keys(texts(persisted.background_event_keys@));
    let pending = taken_over(persisted).pending;
    let shift = events.len() - pending.len();
    assert forall|i: int, j: int| 0 <= i < j < pending.len() implies (
    #[trigger] pending[i]).event_key != (#[trigger] pending[j]).event_key by {
        assert(pending[i] == events[i + shift] && pending[j] == events[j + shift]);
    }
    let left = taken_over(persisted).keys;
    let start = keys.len() - left.len();
    assert forall|i: int, j: int|
        0 <= i < left.len() && 0 <= j < left.len() && i != j implies left[i] != left[j] by {
        assert(left[i] == keys[i + start] && left[j] == keys[j + start]);
    }
}

/// Whether this is what reading gives.
pub open spec fn reads(persisted: PersistedLinkContext, store: LinkContextStore) -> bool {
    store.wf() && store@ == taken_over(persisted)
}

/// A store that was written and is read after a restart is the same: its
/// facts, its jobs, the events that wait and the keys that were seen.
pub proof fn lemma_restart_restores(
    before: StoreView,
    persisted: PersistedLinkContext,
    after: LinkContextStore,
)
    requires
        writes(before, persisted),
        reads(persisted, after),
    ensures
        after@ == before,
{
    lemma_first_jobs(persisted.background_jobs@);
    lemma_first_events(event_views(persisted.pending_background_events@));
    lemma_first_keys(texts(persisted.background_event_keys@));
}

/// Jobs with the same texts make the same table.
pub proof fn lemma_same_jobs(jobs: Seq<NativeBackgroundJob>, copies: Seq<NativeBackgroundJob>)
    requires
        distinct_sessions(jobs),
        distinct_sessions(copies),
        jobs.len() == copies.len(),
        forall|i: int| 0 <= i < jobs.len() ==> (#[trigger] copies[i])@ == jobs[i]@,
    ensures
        job_map(copies) == job_map(jobs),
{
    assert forall|id: Seq<char>| job_map(copies).dom().contains(id) <==> job_map(
        jobs,
    ).dom().contains(id) by {
        if has_job(jobs, id) {
            let k = choose|k: int| 0 <= k < jobs.len() && (#[trigger] jobs[k])@.process_id == id;
            assert(copies[k]@.process_id == id);
        }
        if has_job(copies, id) {
            let k = choose|k: int|
                0 <= k < copies.len() && (#[trigger] copies[k])@.process_id == id;
            assert(jobs[k]@.process_id == id);
        }
    }
    assert forall|id: Seq<char>| job_map(jobs).dom().contains(id) implies job_map(copies)[id]
        == job_map(jobs)[id] by {
        let k = choose|k: int| 0 <= k < jobs.len() && (#[trigger] jobs[k])@.process_id == id;
        assert(copies[k]@ == jobs[k]@);
        lemma_job_map(jobs, k);
        lemma_job_map(copies, k);
    }
    assert(job_map(copies) =~= job_map(jobs));
}

/// Copies jobs.
pub fn clone_jobs(jobs: &Vec<NativeBackgroundJob>) -> (r: Vec<NativeBackgroundJob>)
    ensures
        r@.len() == jobs@.len(),
        forall|i: int| 0 <= i < jobs@.len() ==> (#[trigger] r@[i])@ == jobs@[i]@,
{
    let mut r: Vec<NativeBackgroundJob> = Vec::new();
    let mut i: usize = 0;
    while i < jobs.len()
        invariant
            i <= jobs.len(),
            r@.len() == i,
            forall|j: int| 0 <= j < i ==> (#[trigger] r@[j])@ == jobs@[j]@,
        decreases jobs.len() - i,
    {
        r.push(jobs[i].clone());
        i += 1;
    }
    r
}

/// Copies events.
pub fn clone_events(events: &Vec<BackgroundTriggerEvent>) -> (r: Vec<BackgroundTriggerEvent>)
    ensures
        event_views(r@) == event_views(events@),
{
    let mut r: Vec<BackgroundTriggerEvent> = Vec::new();
    let mut i: usize = 0;
    while i < events.len()
        invariant
            i <= events.len(),
            r@.len() == i,
            forall|j: int| 0 <= j < i ==> (#[trigger] r@[j])@ == events@[j]@,
        decreases events.len() - i,
    {
        r.push(events[i].clone());
        i += 1;
    }
    assert(event_views(r@) =~= event_views(events@));
    r
}

/// Copies records.
pub fn clone_records(records: &Vec<EvidenceRecord>) -> (r: Vec<EvidenceRecord>)
    ensures
        record_views(r@) == record_views(records@),
{
    let mut r: Vec<EvidenceRecord> = Vec::new();
    let mut i: usize = 0;
    while i < records.len()
        invariant
            i <= records.len(),
            r@.len() == i,
            forall|j: int| 0 <= j < i ==> (#[trigger] r@[j])@ == records@[j]@,
        decreases records.len() - i,
    {
        r.push(records[i].clone());
        i += 1;
    }
    assert(record_views(r@) =~= record_views(records@));
    r
}

/// Copies the jobs, the first of each session.
pub fn clone_first_jobs(jobs: &Vec<NativeBackgroundJob>) -> (r: Vec<NativeBackgroundJob>)
    ensures
        distinct_sessions(r@),
        job_map(r@) == first_jobs(jobs@),
{
    let mut r: Vec<NativeBackgroundJob> = Vec::new();
    let mut i: usize = 0;
    assert(jobs@.take(0) =~= Seq::empty());
    assert(job_map(r@) =~= Map::empty());
    while i < jobs.len()
        invariant
            i <= jobs.len(),
            distinct_sessions(r@),
            job_map(r@) == first_jobs(jobs@.take(i as int)),
        decreases jobs.len() - i,
    {
        assert(jobs@.take(i + 1).drop_last() =~= jobs@.take(i as int));
        assert(jobs@.take(i + 1).last() == jobs@[i as int]);
        match find_job(&r, jobs[i].process_id.as_str()) {
            Some(k) => {
                assert(has_job(r@, r@[k as int]@.process_id));
            },
            None => {
                let job = jobs[i].clone();
                proof {
                    lemma_map_push(r@, job);
                }
                r.push(job);
            },
        }
        i += 1;
    }
    assert(jobs@.take(i as int) =~= jobs@);
    r
}

/// Copies the events, the first of each key.
pub fn clone_first_events(events: &Vec<BackgroundTriggerEvent>) -> (r: Vec<BackgroundTriggerEvent>)
    ensures
        event_views(r@) == first_events(event_views(events@)),
{
    let ghost all = event_views(events@);
    let mut r: Vec<BackgroundTriggerEvent> = Vec::new();
    let mut i: usize = 0;
    assert(all.take(0) =~= Seq::empty());
    assert(event_views(r@) =~= Seq::empty());
    while i < events.len()
        invariant
            i <= events.len(),
            all == event_views(events@),
            event_views(r@) == first_events(all.take(i as int)),
        decreases events.len() - i,
    {
        assert(all.take(i + 1).drop_last() =~= all.take(i as int));
        assert(all.take(i + 1).last() == events@[i as int]@);
        if find_key(&r, events[i].event_key.as_str()).is_none() {
            let event = events[i].clone();
            proof {
                lemma_event_views_push(r@, event);
            }
            r.push(event);
        }
        i += 1;
    }
    assert(all.take(i as int) =~= all);
    r
}

/// Copies the keys, each once.
pub fn clone_first_keys(keys: &Vec<String>) -> (r: Vec<String>)
    ensures
        texts(r@) == first_keys(texts(keys@)),
{
    let ghost all = texts(keys@);
    let mut r: Vec<String> = Vec::new();
    let mut i: usize = 0;
    assert(all.take(0) =~= Seq::empty());
    assert(texts(r@) =~= Seq::empty());
    while i < keys.len()
        invariant
            i <= keys.len(),
            all == texts(keys@),
            texts(r@) == first_keys(all.take(i as int)),
        decreases keys.len() - i,
    {
        assert(all.take(i + 1).drop_last() =~= all.take(i as int));
        assert(all.take(i + 1).last() == keys@[i as int]@);
        push_unique(&mut r, keys[i].as_str());
        i += 1;
    }
    assert(all.take(i as int) =~= all);
    r
}

} // verus!
