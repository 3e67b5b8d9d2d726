//! The Link context of one thread, kept up to date by lifecycle events.

use vstd::prelude::*;

use crate::capsule::DEFAULT_MAX_FIELD_CHARS;
use crate::context::{ContextView, LinkContextState};
use crate::decimal::{decimal_int, push_i32};
use crate::evidence::{record_views, EvidenceRecord, EvidenceView};
use crate::exec_events::{
    ExecBackgroundTriggerEvent, ExecCommandBeginEvent, ExecCommandEndEvent,
};
use crate::file_changes::{
    change_paths, file_change_paths, format_patch_evidence, patch_evidence, FileChangeItem,
    PatchApplyStatus,
};
use crate::job_table::{
    distinct_sessions, get_job, job_after, job_map, lemma_job_map, remove_job, summary_before,
    upsert_job,
};
use crate::jobs::{begun_job, no_description, JobView, NativeBackgroundJob};
use crate::lists::{
    append_capped, append_unique_values_with_char_limit, drop_oldest, keep_last, push_unique,
    push_unique_capped, remove_text, with_unique, without, MAX_TOOL_EVENT_CHARS,
};
use crate::pending::{
    distinct_keys, event_views, find_key, first_pending, key_position, lemma_key_position,
    lemma_put_back_distinct, lemma_superseded_keeps, not_superseded, push_bounded, put_back,
    put_back_front, refresh_for_job, remove_superseded, with_job_facts,
    MAX_PENDING_BACKGROUND_EVENTS,
};
use crate::persistence::{
    clone_events, clone_first_events, clone_first_jobs, clone_first_keys, clone_jobs, clone_records,
    lemma_same_jobs, lemma_taken_over_bounded, reads, writes, PersistedLinkContext,
    PERSISTED_LINK_CONTEXT_VERSION,
};
use crate::record_tool::{
    facts_after, record_link_context, record_of, records_after, RecordError,
    RecordLinkContextArgs,
};
use crate::sanitize::{truncate_chars, truncated};
use crate::text::{
    clone_strings, contains_text, is_blank, lemma_texts_push, opt_text, owned, texts,
};
use crate::tool_finish::{
    finished_job, format_tool_finish_event, native_background_job_from_tool_finish,
    tool_finish_text, ToolFinishInput, MAX_TOOL_OUTPUT_PREVIEW_CHARS,
};
use crate::trigger_events::{BackgroundTriggerEvent, EventView};

verus! {

/// Most tool events that stay recorded.
pub const MAX_RECORDED_TOOL_EVENTS: usize = 16;

/// Most touched files that stay recorded.
pub const MAX_RECORDED_FILES_TOUCHED: usize = 32;

/// Most keys of events that stay known.
pub const MAX_RECORDED_BACKGROUND_EVENT_KEYS: usize = 128;

/// Thread-scoped mutable Link context state maintained by lifecycle hooks.
#[derive(Debug)]
pub struct LinkContextStore {
    state: LinkContextState,
    background_jobs: Vec<NativeBackgroundJob>,
    pending_background_events: Vec<BackgroundTriggerEvent>,
    background_event_keys: Vec<String>,
    reports: Vec<EvidenceRecord>,
}

/// What a [`LinkContextStore`] holds.
pub struct StoreView {
    /// The facts of the thread.
    pub state: ContextView,
    /// The background jobs, by session.
    pub jobs: Map<Seq<char>, JobView>,
    /// The events that wait to be shown, oldest first.
    pub pending: Seq<EventView>,
    /// The keys of events that were recorded, oldest first.
    pub keys: Seq<Seq<char>>,
    /// The facts that the model has recorded, oldest first.
    pub reports: Seq<EvidenceView>,
}

impl View for LinkContextStore {
    type V = StoreView;

    closed spec fn view(&self) -> StoreView {
        StoreView {
            state: self.state@,
            jobs: job_map(self.background_jobs@),
            pending: event_views(self.pending_background_events@),
            keys: texts(self.background_event_keys@),
            reports: record_views(self.reports@),
        }
    }
}

/// The facts, with one more piece of evidence.
pub open spec fn with_evidence(state: ContextView, evidence: Seq<char>) -> ContextView {
    ContextView {
        verified_evidence: append_capped(
            state.verified_evidence,
            seq![evidence],
            Some(MAX_RECORDED_TOOL_EVENTS),
            MAX_TOOL_EVENT_CHARS as nat,
        ),
        ..state
    }
}

/// The facts, with a job's line in place of the line that it had before.
pub open spec fn with_job_line(
    state: ContextView,
    before: Option<Seq<char>>,
    summary: Seq<char>,
) -> ContextView {
    ContextView {
        active_background_jobs: with_unique(
            match before {
                Some(line) => without(state.active_background_jobs, line),
                None => state.active_background_jobs,
            },
            summary,
        ),
        ..state
    }
}

/// The evidence that a job has ended.
pub open spec fn exit_evidence(job: JobView, event: ExecCommandEndEvent) -> Seq<char> {
    "Native background exec session "@ + job.process_id + " ended with exit_code="@ + decimal_int(
        event.exit_code as int,
    ) + " status="@ + event.status.name() + ": "@ + truncated(
        job.description,
        MAX_TOOL_OUTPUT_PREVIEW_CHARS as nat,
    )
}

/// The evidence that a trigger has fired.
pub open spec fn trigger_evidence(event: ExecBackgroundTriggerEvent) -> Seq<char> {
    "Native background exec session "@ + event.process_id@ + " fired trigger `"@ + event.trigger@
        + "`: "@ + truncated(event.reason@, MAX_TOOL_OUTPUT_PREVIEW_CHARS as nat)
}

impl StoreView {
    /// Nothing recorded yet.
    pub open spec fn empty() -> StoreView {
        StoreView {
            state: ContextView::empty(),
            jobs: Map::empty(),
            pending: Seq::empty(),
            keys: Seq::empty(),
            reports: Seq::empty(),
        }
    }

    /// What holds of every store: at most so many events wait and so many keys
    /// are known, and no key twice.
    pub open spec fn is_bounded(self) -> bool {
        &&& self.pending.len() <= MAX_PENDING_BACKGROUND_EVENTS
        &&& distinct_keys(self.pending)
        &&& self.keys.len() <= MAX_RECORDED_BACKGROUND_EVENT_KEYS
        &&& self.keys.no_duplicates()
    }

    /// The store with one more event. An event whose key waits completes the
    /// one that waits; one that reports an exit takes the place of less telling
    /// ones of its session; one whose key was seen before is not queued again.
    pub open spec fn enqueued(self, event: EventView) -> StoreView {
        match key_position(self.pending, event.event_key) {
            Some(i) => StoreView {
                pending: self.pending.update(i, self.pending[i].merged(event)),
                ..self
            },
            None => {
                let rest = not_superseded(self.pending, event);
                if self.keys.contains(event.event_key) {
                    StoreView { pending: rest, ..self }
                } else {
                    StoreView {
                        pending: keep_last(
                            rest.push(event),
                            MAX_PENDING_BACKGROUND_EVENTS as nat,
                        ),
                        keys: keep_last(
                            self.keys.push(event.event_key),
                            MAX_RECORDED_BACKGROUND_EVENT_KEYS as nat,
                        ),
                        ..self
                    }
                }
            },
        }
    }

    /// The store with a job recorded, and the events that wait for it completed.
    pub open spec fn with_job(self, job: JobView) -> StoreView {
        let after = job_after(self.jobs, job);
        StoreView {
            jobs: self.jobs.insert(job.process_id, after),
            pending: with_job_facts(self.pending, after),
            ..self
        }
    }

    /// The store after a tool call.
    pub open spec fn tool_finished(self, input: ToolFinishInput) -> StoreView {
        let state = with_evidence(self.state, tool_finish_text(input));
        match finished_job(input) {
            None => StoreView { state, ..self },
            Some(job) => {
                let summary = job_after(self.jobs, job).summary();
                StoreView {
                    state: with_evidence(
                        with_job_line(
                            state,
                            summary_before(self.jobs, job.process_id),
                            summary,
                        ),
                        "Native background exec started: "@ + summary,
                    ),
                    ..self.with_job(job)
                }
            },
        }
    }

    /// The store after the start of a command.
    pub open spec fn command_begun(self, event: ExecCommandBeginEvent) -> StoreView {
        match begun_job(event) {
            None => self,
            Some(job) => {
                let summary = job_after(self.jobs, job).summary();
                StoreView {
                    state: with_evidence(
                        with_job_line(
                            self.state,
                            summary_before(self.jobs, job.process_id),
                            summary,
                        ),
                        "Native background exec registered: "@ + summary,
                    ),
                    ..self.with_job(job)
                }
            },
        }
    }

    /// Whether the end of a command is the end of a known job.
    pub open spec fn knows(self, event: ExecCommandEndEvent) -> bool {
        event.process_id is Some && self.jobs.dom().contains(event.process_id->0@)
    }

    /// The store without the job of a command that has ended.
    pub open spec fn command_over(self, event: ExecCommandEndEvent) -> StoreView {
        let process_id = event.process_id->0@;
        let job = self.jobs[process_id];
        StoreView {
            state: with_evidence(
                ContextView {
                    active_background_jobs: without(
                        self.state.active_background_jobs,
                        job.summary(),
                    ),
                    ..self.state
                },
                exit_evidence(job, event),
            ),
            jobs: self.jobs.remove(process_id),
            ..self
        }
    }

    /// The store after the end of a command.
    pub open spec fn command_ended(self, event: ExecCommandEndEvent) -> StoreView {
        if !self.knows(event) {
            self
        } else {
            let job = self.jobs[event.process_id->0@];
            let after = self.command_over(event);
            if event.exit_code != 0 || !(event.status is Completed) || job.asks_for_exit() {
                after.enqueued(EventView::ended(job, event))
            } else {
                after
            }
        }
    }

    /// The event that a fired trigger stands for: the job's own facts come
    /// before those of the trigger.
    pub open spec fn fired_event(self, event: ExecBackgroundTriggerEvent) -> EventView {
        if self.jobs.dom().contains(event.process_id@) {
            let job = self.jobs[event.process_id@];
            EventView::fired(event, job.description, job.triggers, job.log_path)
        } else {
            EventView::fired(
                event,
                match event.description {
                    Some(description) => description@,
                    None => no_description(),
                },
                texts(event.declared_triggers@),
                None,
            )
        }
    }

    /// The store after a trigger fired.
    pub open spec fn trigger_fired(self, event: ExecBackgroundTriggerEvent) -> StoreView {
        StoreView { state: with_evidence(self.state, trigger_evidence(event)), ..self }.enqueued(
            self.fired_event(event),
        )
    }

    /// The store after a patch: only files of one that was applied count as
    /// touched.
    pub open spec fn file_changed(self, item: FileChangeItem) -> StoreView {
        let paths = change_paths(item);
        if paths.len() == 0 {
            self
        } else {
            let files = if item.status == Some(PatchApplyStatus::Completed) {
                append_capped(
                    self.state.files_touched,
                    paths,
                    Some(MAX_RECORDED_FILES_TOUCHED),
                    DEFAULT_MAX_FIELD_CHARS as nat,
                )
            } else {
                self.state.files_touched
            };
            StoreView {
                state: with_evidence(
                    ContextView { files_touched: files, ..self.state },
                    patch_evidence(item),
                ),
                ..self
            }
        }
    }

    /// The store after the model has recorded a fact.
    pub open spec fn fact_recorded(
        self,
        args: RecordLinkContextArgs,
        turn_id: Seq<char>,
        call_id: Seq<char>,
        created_at_ms: Option<i64>,
    ) -> StoreView {
        let record = record_of(args, turn_id, call_id, created_at_ms);
        StoreView {
            state: facts_after(self.state, self.reports, args.kind, record),
            reports: records_after(self.state.verified_evidence, self.reports, record),
            ..self
        }
    }

    /// The store with no event waiting.
    pub open spec fn popped(self) -> StoreView {
        StoreView { pending: Seq::empty(), ..self }
    }

    /// The store with events put back in front.
    pub open spec fn requeued(self, events: Seq<EventView>) -> StoreView {
        if events.len() == 0 {
            self
        } else {
            StoreView { pending: first_pending(put_back(self.pending, events)), ..self }
        }
    }

    /// The store after an event of a turn.
    pub open spec fn turn_event(self, event: EventMsg) -> StoreView {
        match event {
            EventMsg::ExecCommandBegin(event) => self.command_begun(event),
            EventMsg::ExecCommandEnd(event) => self.command_ended(event),
            EventMsg::ExecBackgroundTrigger(event) => self.trigger_fired(event),
            EventMsg::Other => self,
        }
    }
}

/// What the host reports during a turn, as far as the context takes note of it.
pub enum EventMsg {
    ExecCommandBegin(ExecCommandBeginEvent),
    ExecCommandEnd(ExecCommandEndEvent),
    ExecBackgroundTrigger(ExecBackgroundTriggerEvent),
    Other,
}

fn replace_job_line(state: &mut LinkContextState, before: Option<String>, summary: &str)
    ensures
        final(state)@ == with_job_line(old(state)@, opt_text(before), summary@),
{
    match before {
        Some(line) => {
            remove_text(&mut state.active_background_jobs, line.as_str());
        },
        None => {},
    }
    push_unique(&mut state.active_background_jobs, summary);
}

fn add_evidence(state: &mut LinkContextState, evidence: String)
    ensures
        final(state)@ == with_evidence(old(state)@, evidence@),
{
    push_unique_capped(&mut state.verified_evidence, evidence, MAX_RECORDED_TOOL_EVENTS);
}

impl Default for LinkContextStore {
    fn default() -> (r: Self)
        ensures
            r.wf(),
            r@ == StoreView::empty(),
    {
        let r = LinkContextStore {
            state: LinkContextState::default(),
            background_jobs: Vec::new(),
            pending_background_events: Vec::new(),
            background_event_keys: Vec::new(),
            reports: Vec::new(),
        };
        assert(r@.reports =~= Seq::empty());
        assert(r@.jobs =~= Map::empty());
        assert(r@.pending =~= Seq::empty());
        assert(r@.keys =~= Seq::empty());
        r
    }
}

impl LinkContextStore {
    /// What every store keeps.
    pub closed spec fn wf(self) -> bool {
        &&& distinct_sessions(self.background_jobs@)
        &&& self@.is_bounded()
    }

    /// What the bounds say of a store, and that each job stands under its own
    /// session.
    pub proof fn lemma_wf(self)
        requires
            self.wf(),
        ensures
            self@.is_bounded(),
            forall|id: Seq<char>| #[trigger]
                self@.jobs.dom().contains(id) ==> self@.jobs[id].process_id == id,
    {
        let jobs = self.background_jobs@;
        assert forall|id: Seq<char>| #[trigger] self@.jobs.dom().contains(id) implies self@.jobs[id].process_id
            == id by {
            let i = choose|i: int| 0 <= i < jobs.len() && (#[trigger] jobs[i])@.process_id == id;
            lemma_job_map(jobs, i);
        }
    }

    /// Returns a point-in-time copy of the recorded Link context.
    pub fn snapshot(&self) -> (r: LinkContextState)
        ensures
            r@ == self@.state,
    {
        self.state.clone()
    }

    /// Applies an in-place update to the recorded Link context.
    pub fn update(&mut self, update: impl FnOnce(&mut LinkContextState))
        requires
            old(self).wf(),
            forall|state: &mut LinkContextState| call_requires(update, (state,)),
        ensures
            final(self).wf(),
            final(self)@ == (StoreView { state: final(self)@.state, ..old(self)@ }),
            exists|state: &mut LinkContextState|
                (*state)@ == old(self)@.state && (*final(state))@ == final(self)@.state
                    && #[trigger] call_ensures(update, (state,), ()),
    {
        update(&mut self.state);
    }

    /// Records a finished tool call, and the background job that it started.
    pub fn record_tool_finish(&mut self, input: &ToolFinishInput)
        requires
            old(self).wf(),
        ensures
            final(self).wf(),
            final(self)@ == old(self)@.tool_finished(*input),
    {
        add_evidence(&mut self.state, format_tool_finish_event(input));
        match native_background_job_from_tool_finish(input) {
            Some(job) => {
                let (before, job) = self.upsert_background_job(job);
                self.refresh_pending_background_events_for_job(&job);
                let summary = job.summary();
                replace_job_line(&mut self.state, before, summary.as_str());
                let mut evidence = owned("Native background exec started: ");
                evidence.append(summary.as_str());
                add_evidence(&mut self.state, evidence);
            },
            None => {},
        }
    }

    /// Records an event of a turn.
    pub fn record_turn_event(&mut self, event: &EventMsg)
        requires
            old(self).wf(),
        ensures
            final(self).wf(),
            final(self)@ == old(self)@.turn_event(*event),
    {
        match event {
            EventMsg::ExecCommandBegin(event) => self.record_exec_command_begin(event),
            EventMsg::ExecCommandEnd(event) => self.record_exec_command_end(event),
            EventMsg::ExecBackgroundTrigger(event) => self.record_background_trigger(event),
            EventMsg::Other => {},
        }
    }

    /// Records the start of a background command.
    pub fn record_exec_command_begin(&mut self, event: &ExecCommandBeginEvent)
        requires
            old(self).wf(),
        ensures
            final(self).wf(),
            final(self)@ == old(self)@.command_begun(*event),
    {
        match NativeBackgroundJob::from_exec_begin(event) {
            Some(job) => {
                let (before, job) = self.upsert_background_job(job);
                self.refresh_pending_background_events_for_job(&job);
                let summary = job.summary();
                replace_job_line(&mut self.state, before, summary.as_str());
                let mut evidence = owned("Native background exec registered: ");
                evidence.append(summary.as_str());
                add_evidence(&mut self.state, evidence);
            },
            None => {},
        }
    }

    /// Records the end of a command, and queues an event where it was asked for.
    pub fn record_exec_command_end(&mut self, event: &ExecCommandEndEvent)
        requires
            old(self).wf(),
        ensures
            final(self).wf(),
            final(self)@ == old(self)@.command_ended(*event),
    {
        let job = match &event.process_id {
            Some(process_id) => match remove_job(
                &mut self.background_jobs,
                process_id.as_str(),
            ) {
                Some(job) => job,
                None => {
                    assert(self@.jobs =~= old(self)@.jobs);
                    return;
                },
            },
            None => {
                return;
            },
        };
        let summary = job.summary();
        let mut evidence = owned("Native background exec session ");
        evidence.append(job.process_id.as_str());
        evidence.append(" ended with exit_code=");
        push_i32(&mut evidence, event.exit_code);
        evidence.append(" status=");
        evidence.append(event.status.label());
        evidence.append(": ");
        evidence.append(
            truncate_chars(job.description.as_str(), MAX_TOOL_OUTPUT_PREVIEW_CHARS).as_str(),
        );
        remove_text(&mut self.state.active_background_jobs, summary.as_str());
        add_evidence(&mut self.state, evidence);
        if !job.should_trigger_on_exit(event) {
            return;
        }
        let trigger_event = BackgroundTriggerEvent::from_exec_end(job, event);
        self.enqueue_background_event(trigger_event);
    }

    /// Records that a trigger fired, and queues its event.
    pub fn record_background_trigger(&mut self, event: &ExecBackgroundTriggerEvent)
        requires
            old(self).wf(),
        ensures
            final(self).wf(),
            final(self)@ == old(self)@.trigger_fired(*event),
    {
        let (description, triggers, log_path) = match get_job(
            &self.background_jobs,
            event.process_id.as_str(),
        ) {
            Some(job) => (job.description, job.triggers, job.log_path),
            None => {
                let description = match &event.description {
                    Some(description) => description.clone(),
                    None => owned("(no description recorded)"),
                };
                (description, clone_strings(&event.declared_triggers), None)
            },
        };
        let mut evidence = owned("Native background exec session ");
        evidence.append(event.process_id.as_str());
        evidence.append(" fired trigger `");
        evidence.append(event.trigger.as_str());
        evidence.append("`: ");
        evidence.append(
            truncate_chars(event.reason.as_str(), MAX_TOOL_OUTPUT_PREVIEW_CHARS).as_str(),
        );
        add_evidence(&mut self.state, evidence);
        let trigger_event = BackgroundTriggerEvent::from_exec_background_trigger(
            event,
            description,
            triggers,
            log_path,
        );
        self.enqueue_background_event(trigger_event);
    }

    /// Queues an event.
    pub fn enqueue_background_event(&mut self, event: BackgroundTriggerEvent)
        requires
            old(self).wf(),
        ensures
            final(self).wf(),
            final(self)@ == old(self)@.enqueued(event@),
    {
        proof {
            lemma_enqueued_bounded(self@, event@);
        }
        if self.merge_pending_background_event(&event) {
            return;
        }
        self.remove_pending_background_events_superseded_by(&event);
        if !self.record_background_event_key(event.event_key.as_str()) {
            return;
        }
        push_bounded(&mut self.pending_background_events, event);
    }

    fn record_background_event_key(&mut self, event_key: &str) -> (r: bool)
        ensures
            r == !old(self)@.keys.contains(event_key@),
            final(self).background_jobs == old(self).background_jobs,
            final(self)@ == if r {
                StoreView {
                    keys: keep_last(
                        old(self)@.keys.push(event_key@),
                        MAX_RECORDED_BACKGROUND_EVENT_KEYS as nat,
                    ),
                    ..old(self)@
                }
            } else {
                old(self)@
            },
    {
        if contains_text(&self.background_event_keys, event_key) {
            return false;
        }
        let key = owned(event_key);
        proof {
            lemma_texts_push(self.background_event_keys@, key);
        }
        self.background_event_keys.push(key);
        let ghost before = self.background_event_keys@;
        drop_oldest(&mut self.background_event_keys, MAX_RECORDED_BACKGROUND_EVENT_KEYS);
        assert(texts(self.background_event_keys@) =~= keep_last(
            texts(before),
            MAX_RECORDED_BACKGROUND_EVENT_KEYS as nat,
        ));
        true
    }

    fn merge_pending_background_event(&mut self, event: &BackgroundTriggerEvent) -> (r: bool)
        ensures
            r == (key_position(old(self)@.pending, event@.event_key) is Some),
            final(self).background_jobs == old(self).background_jobs,
            final(self)@ == if r {
                old(self)@.enqueued(event@)
            } else {
                old(self)@
            },
    {
        match find_key(&self.pending_background_events, event.event_key.as_str()) {
            Some(i) => {
                let mut merged = self.pending_background_events[i].clone();
                merged.merge_missing_from(event.clone());
                self.pending_background_events.set(i, merged);
                assert(self@.pending =~= old(self)@.enqueued(event@).pending);
                true
            },
            None => false,
        }
    }

    fn remove_pending_background_events_superseded_by(&mut self, event: &BackgroundTriggerEvent)
        ensures
            final(self).background_jobs == old(self).background_jobs,
            final(self)@ == (StoreView {
                pending: not_superseded(old(self)@.pending, event@),
                ..old(self)@
            }),
    {
        if !event.is_terminal_exit() {
            proof {
                lemma_nothing_superseded(self@.pending, event@);
            }
            return;
        }
        remove_superseded(&mut self.pending_background_events, event);
    }

    fn refresh_pending_background_events_for_job(&mut self, job: &NativeBackgroundJob)
        requires
            old(self).wf(),
        ensures
            final(self).wf(),
            final(self)@ == (StoreView {
                pending: with_job_facts(old(self)@.pending, job@),
                ..old(self)@
            }),
    {
        refresh_for_job(&mut self.pending_background_events, job);
        proof {
            let before = old(self)@.pending;
            let after = self@.pending;
            assert forall|i: int, j: int| 0 <= i < j < after.len() implies (
            #[trigger] after[i]).event_key != (#[trigger] after[j]).event_key by {
                assert(after[i].event_key == before[i].event_key);
                assert(after[j].event_key == before[j].event_key);
            }
        }
    }

    fn upsert_background_job(&mut self, job: NativeBackgroundJob) -> (r: (
        Option<String>,
        NativeBackgroundJob,
    ))
        requires
            old(self).wf(),
        ensures
            final(self).wf(),
            opt_text(r.0) == summary_before(old(self)@.jobs, job@.process_id),
            r.1@ == job_after(old(self)@.jobs, job@),
            final(self)@ == (StoreView {
                jobs: old(self)@.jobs.insert(job@.process_id, r.1@),
                ..old(self)@
            }),
    {
        upsert_job(&mut self.background_jobs, job)
    }

    /// Takes all events that wait.
    pub fn pop_pending_background_events(&mut self) -> (r: Vec<BackgroundTriggerEvent>)
        requires
            old(self).wf(),
        ensures
            final(self).wf(),
            event_views(r@) == old(self)@.pending,
            final(self)@ == old(self)@.popped(),
    {
        let mut events: Vec<BackgroundTriggerEvent> = Vec::new();
        events.append(&mut self.pending_background_events);
        assert(events@ =~= old(self).pending_background_events@);
        assert(self@.pending =~= Seq::empty());
        events
    }

    /// Puts events back in front of those that wait.
    pub fn requeue_background_events_front(&mut self, events: Vec<BackgroundTriggerEvent>)
        requires
            old(self).wf(),
        ensures
            final(self).wf(),
            final(self)@ == old(self)@.requeued(event_views(events@)),
    {
        proof {
            lemma_put_back_distinct(self@.pending, event_views(events@));
        }
        put_back_front(&mut self.pending_background_events, events);
    }

    /// Records a patch.
    pub fn record_file_change(&mut self, item: &FileChangeItem)
        requires
            old(self).wf(),
        ensures
            final(self).wf(),
            final(self)@ == old(self)@.file_changed(*item),
    {
        let paths = file_change_paths(item);
        assert(texts(paths@).len() == paths.len());
        if paths.len() == 0 {
            return;
        }
        let evidence = format_patch_evidence(item, &paths);
        match item.status {
            Some(PatchApplyStatus::Completed) => {
                append_unique_values_with_char_limit(
                    &mut self.state.files_touched,
                    paths.as_slice(),
                    Some(MAX_RECORDED_FILES_TOUCHED),
                    DEFAULT_MAX_FIELD_CHARS,
                );
            },
            _ => {},
        }
        add_evidence(&mut self.state, evidence);
    }

    /// Records a fact that the model reports.
    pub fn record_fact(
        &mut self,
        args: RecordLinkContextArgs,
        turn_id: &str,
        call_id: &str,
        created_at_ms: Option<i64>,
    ) -> (r: Result<(), RecordError>)
        requires
            old(self).wf(),
        ensures
            final(self).wf(),
            r is Err <==> is_blank(args.summary@),
            r is Err ==> final(self)@ == old(self)@,
            r is Ok ==> final(self)@ == old(self)@.fact_recorded(
                args,
                turn_id@,
                call_id@,
                created_at_ms,
            ),
    {
        record_link_context(
            &mut self.state,
            &mut self.reports,
            args,
            turn_id,
            call_id,
            created_at_ms,
        )
    }

    /// What is written of a store.
    pub fn persisted(&self) -> (r: PersistedLinkContext)
        requires
            self.wf(),
        ensures
            writes(self@, r),
    {
        let r = PersistedLinkContext {
            version: PERSISTED_LINK_CONTEXT_VERSION,
            state: self.state.clone(),
            background_jobs: clone_jobs(&self.background_jobs),
            pending_background_events: clone_events(&self.pending_background_events),
            background_event_keys: clone_strings(&self.background_event_keys),
            reports: clone_records(&self.reports),
        };
        proof {
            let jobs = self.background_jobs@;
            let copies = r.background_jobs@;
            assert forall|i: int, j: int| 0 <= i < j < copies.len() implies (
            #[trigger] copies[i])@.process_id != (#[trigger] copies[j])@.process_id by {
                assert(jobs[i]@.process_id != jobs[j]@.process_id);
            }
            lemma_same_jobs(jobs, copies);
        }
        r
    }

    /// The store that was written. What no store writes, such as two jobs of one
    /// session, is left out.
    pub fn restored(persisted: PersistedLinkContext) -> (r: Self)
        ensures
            reads(persisted, r),
    {
        let background_jobs = clone_first_jobs(&persisted.background_jobs);
        let mut pending = clone_first_events(&persisted.pending_background_events);
        let ghost events = pending@;
        drop_oldest(&mut pending, MAX_PENDING_BACKGROUND_EVENTS);
        assert(event_views(pending@) =~= keep_last(
            event_views(events),
            MAX_PENDING_BACKGROUND_EVENTS as nat,
        ));
        let mut seen = clone_first_keys(&persisted.background_event_keys);
        let ghost keys = seen@;
        drop_oldest(&mut seen, MAX_RECORDED_BACKGROUND_EVENT_KEYS);
        assert(texts(seen@) =~= keep_last(
            texts(keys),
            MAX_RECORDED_BACKGROUND_EVENT_KEYS as nat,
        ));
        proof {
            lemma_taken_over_bounded(persisted);
        }
        LinkContextStore {
            state: persisted.state,
            background_jobs,
            pending_background_events: pending,
            background_event_keys: seen,
            reports: persisted.reports,
        }
    }
}

proof fn lemma_nothing_superseded(pending: Seq<EventView>, event: EventView)
    requires
        !event.is_terminal_exit(),
    ensures
        not_superseded(pending, event) == pending,
    decreases pending.len(),
{
    if pending.len() > 0 {
        lemma_nothing_superseded(pending.drop_last(), event);
        assert(pending.drop_last().push(pending.last()) =~= pending);
    } else {
        assert(not_superseded(pending, event) =~= pending);
    }
}

/// Queueing an event keeps the bounds, and keys distinct.
pub proof fn lemma_enqueued_bounded(store: StoreView, event: EventView)
    requires
        store.is_bounded(),
    ensures
        store.enqueued(event).is_bounded(),
{
    let after = store.enqueued(event);
    let key = event.event_key;
    lemma_key_position(store.pending, key);
    match key_position(store.pending, key) {
        Some(k) => {
            assert forall|i: int, j: int| 0 <= i < j < after.pending.len() implies (
            #[trigger] after.pending[i]).event_key != (#[trigger] after.pending[j]).event_key by {
                assert(after.pending[i].event_key == store.pending[i].event_key);
                assert(after.pending[j].event_key == store.pending[j].event_key);
            }
        },
        None => {
            lemma_superseded_keeps(store.pending, event);
            let rest = not_superseded(store.pending, event);
            let more = rest.push(event);
            assert forall|i: int, j: int| 0 <= i < j < more.len() implies (
            #[trigger] more[i]).event_key != (#[trigger] more[j]).event_key by {
                assert(more[i] == rest[i]);
                if j < rest.len() {
                    assert(more[j] == rest[j]);
                } else {
                    assert(store.pending.contains(rest[i]));
                }
            }
            if !store.keys.contains(key) {
                let keys = store.keys.push(key);
                assert forall|i: int, j: int|
                    0 <= i < keys.len() && 0 <= j < keys.len() && i != j implies keys[i]
                    != keys[j] by {
                    if i < store.keys.len() && j < store.keys.len() {
                        assert(store.keys[i] != store.keys[j]);
                    }
                }
            }
        },
    }
}

} // verus!
