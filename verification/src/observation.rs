//! Local observation primitives for background exec sessions.
//!
//! Everything here runs in the harness: waiting for a process to exit blocks a
//! tool call, not a model reasoning loop, so watching a long job costs zero
//! inference between state changes.

use vstd::prelude::*;

use crate::lists::{drop_oldest, keep_last};
use crate::text::{clone_opt, clone_strings, opt_text, texts};

verus! {

/// Most completed jobs that stay known.
pub const MAX_COMPLETED_JOBS: usize = 64;

/// Point-in-time view of one tracked session. Exited sessions vanish from the
/// manager when reaped, so absence of a snapshot does not mean the job never
/// existed: its durable log outlives it.
#[derive(Debug, PartialEq, Eq)]
pub struct JobSnapshot {
    pub process_id: i32,
    pub command: String,
    pub cwd: String,
    pub background_description: Option<String>,
    pub background_triggers: Vec<String>,
    pub running: bool,
    pub exit_code: Option<i32>,
    /// Wall-clock start (unix ms). No end timestamp: exited entries are
    /// reaped lazily, so stamping one at archive time would overstate runtime.
    pub started_at_unix_ms: i64,
}

/// The texts of a [`JobSnapshot`].
pub struct SnapshotView {
    pub process_id: i32,
    pub command: Seq<char>,
    pub cwd: Seq<char>,
    pub background_description: Option<Seq<char>>,
    pub background_triggers: Seq<Seq<char>>,
    pub running: bool,
    pub exit_code: Option<i32>,
    pub started_at_unix_ms: i64,
}

impl View for JobSnapshot {
    type V = SnapshotView;

    open spec fn view(&self) -> SnapshotView {
        SnapshotView {
            process_id: self.process_id,
            command: self.command@,
            cwd: self.cwd@,
            background_description: opt_text(self.background_description),
            background_triggers: texts(self.background_triggers@),
            running: self.running,
            exit_code: self.exit_code,
            started_at_unix_ms: self.started_at_unix_ms,
        }
    }
}

impl Clone for JobSnapshot {
    fn clone(&self) -> (r: Self)
        ensures
            r@ == self@,
    {
        JobSnapshot {
            process_id: self.process_id,
            command: self.command.clone(),
            cwd: self.cwd.clone(),
            background_description: clone_opt(&self.background_description),
            background_triggers: clone_strings(&self.background_triggers),
            running: self.running,
            exit_code: self.exit_code,
            started_at_unix_ms: self.started_at_unix_ms,
        }
    }
}

/// The views of a list of snapshots.
pub open spec fn snapshot_views(snapshots: Seq<JobSnapshot>) -> Seq<SnapshotView> {
    Seq::new(snapshots.len(), |i: int| snapshots[i]@)
}

/// What came of waiting for a session.
#[derive(Clone, Copy, Debug, PartialEq, Eq, Structural)]
pub enum JobWaitOutcome {
    Exited { exit_code: Option<i32> },
    TimedOut,
    Interrupted,
    Unknown,
}

/// The jobs of a list that are of other sessions.
pub open spec fn other_jobs(jobs: Seq<SnapshotView>, process_id: i32) -> Seq<SnapshotView>
    decreases jobs.len(),
{
    if jobs.len() == 0 {
        Seq::empty()
    } else if jobs.last().process_id == process_id {
        other_jobs(jobs.drop_last(), process_id)
    } else {
        other_jobs(jobs.drop_last(), process_id).push(jobs.last())
    }
}

/// The completed jobs with one more, which takes the place of an older one of
/// its session.
pub open spec fn archived(jobs: Seq<SnapshotView>, job: SnapshotView) -> Seq<SnapshotView> {
    keep_last(other_jobs(jobs, job.process_id).push(job), MAX_COMPLETED_JOBS as nat)
}

/// The position of the first job of a session from `from` on.
pub open spec fn job_position(jobs: Seq<SnapshotView>, process_id: i32, from: int) -> Option<int>
    decreases jobs.len() - from,
{
    if from >= jobs.len() {
        None
    } else if jobs[from].process_id == process_id {
        Some(from)
    } else {
        job_position(jobs, process_id, from + 1)
    }
}

/// Whether no session has two jobs.
pub open spec fn distinct_ids(jobs: Seq<SnapshotView>) -> bool {
    forall|i: int, j: int|
        0 <= i < j < jobs.len() ==> (#[trigger] jobs[i]).process_id != (
        #[trigger] jobs[j]).process_id
}

/// Jobs that are no longer live, oldest first.
pub struct CompletedJobs {
    jobs: Vec<JobSnapshot>,
}

impl View for CompletedJobs {
    type V = Seq<SnapshotView>;

    closed spec fn view(&self) -> Seq<SnapshotView> {
        snapshot_views(self.jobs@)
    }
}

impl CompletedJobs {
    /// No job yet.
    pub fn new() -> (r: Self)
        ensures
            r@ == Seq::<SnapshotView>::empty(),
    {
        let r = CompletedJobs { jobs: Vec::new() };
        assert(r@ =~= Seq::empty());
        r
    }

    /// Records a session that is leaving the live store, so that status and
    /// wait queries can still be answered after the process is reaped.
    pub fn archive_completed_entry(&mut self, snapshot: JobSnapshot)
        ensures
            final(self)@ == archived(old(self)@, (SnapshotView { running: false, ..snapshot@ })),
    {
        let mut snapshot = snapshot;
        snapshot.running = false;
        self.archive_completed(snapshot);
    }

    /// Records a completed job.
    pub fn archive_completed(&mut self, snapshot: JobSnapshot)
        ensures
            final(self)@ == archived(old(self)@, snapshot@),
    {
        let ghost all = self@;
        let mut kept: Vec<JobSnapshot> = Vec::new();
        let mut i: usize = 0;
        assert(all.take(0) =~= Seq::empty());
        assert(snapshot_views(kept@) =~= Seq::empty());
        while i < self.jobs.len()
            invariant
                i <= self.jobs.len(),
                all == snapshot_views(self.jobs@),
                snapshot_views(kept@) == other_jobs(all.take(i as int), snapshot.process_id),
            decreases self.jobs.len() - i,
        {
            assert(all.take(i + 1).drop_last() =~= all.take(i as int));
            assert(all.take(i + 1).last() == self.jobs@[i as int]@);
            if self.jobs[i].process_id != snapshot.process_id {
                let ghost before = kept@;
                let job = self.jobs[i].clone();
                kept.push(job);
                assert(snapshot_views(kept@) =~= snapshot_views(before).push(job@));
            }
            i += 1;
        }
        assert(all.take(i as int) =~= all);
        let ghost before = kept@;
        kept.push(snapshot);
        assert(snapshot_views(kept@) =~= snapshot_views(before).push(snapshot@));
        let ghost full = kept@;
        drop_oldest(&mut kept, MAX_COMPLETED_JOBS);
        assert(snapshot_views(kept@) =~= keep_last(
            snapshot_views(full),
            MAX_COMPLETED_JOBS as nat,
        ));
        self.jobs = kept;
    }

    /// The completed job of a session.
    pub fn completed_job(&self, process_id: i32) -> (r: Option<JobSnapshot>)
        ensures
            match r {
                Some(job) => job_position(self@, process_id, 0) matches Some(k) && job@ == self@[k],
                None => job_position(self@, process_id, 0) is None,
            },
    {
        let ghost all = self@;
        let mut i: usize = 0;
        while i < self.jobs.len()
            invariant
                i <= self.jobs.len(),
                all == snapshot_views(self.jobs@),
                all == self@,
                job_position(all, process_id, 0) == job_position(all, process_id, i as int),
            decreases self.jobs.len() - i,
        {
            if self.jobs[i].process_id == process_id {
                return Some(self.jobs[i].clone());
            }
            i += 1;
        }
        None
    }

    /// At most so many completed jobs, most recently completed first.
    pub fn recent_completed_jobs(&self, limit: usize) -> (r: Vec<JobSnapshot>)
        ensures
            snapshot_views(r@) == keep_last(self@, limit as nat).reverse(),
    {
        let ghost goal = keep_last(self@, limit as nat).reverse();
        let len = self.jobs.len();
        let count: usize = if len <= limit {
            len
        } else {
            limit
        };
        let mut r: Vec<JobSnapshot> = Vec::new();
        let mut i: usize = 0;
        assert(snapshot_views(r@) =~= goal.take(0));
        while i < count
            invariant
                i <= count <= len,
                len == self.jobs@.len(),
                count == goal.len(),
                goal == keep_last(self@, limit as nat).reverse(),
                count == if len <= limit {
                    len
                } else {
                    limit
                },
                snapshot_views(r@) == goal.take(i as int),
            decreases count - i,
        {
            let ghost before = r@;
            let job = self.jobs[len - 1 - i].clone();
            assert(job@ == goal[i as int]);
            r.push(job);
            assert(snapshot_views(r@) =~= snapshot_views(before).push(job@));
            assert(goal.take(i + 1) =~= goal.take(i as int).push(goal[i as int]));
            i += 1;
        }
        assert(goal.take(i as int) =~= goal);
        r
    }
}

/// A list sorted by session with one more job, behind those of its session.
pub open spec fn insert_by_id(jobs: Seq<SnapshotView>, job: SnapshotView) -> Seq<SnapshotView>
    decreases jobs.len(),
{
    if jobs.len() == 0 || jobs.last().process_id <= job.process_id {
        jobs.push(job)
    } else {
        insert_by_id(jobs.drop_last(), job).push(jobs.last())
    }
}

/// The jobs sorted by session; those of one session stay in their order.
pub open spec fn sorted_by_id(jobs: Seq<SnapshotView>) -> Seq<SnapshotView>
    decreases jobs.len(),
{
    if jobs.len() == 0 {
        Seq::empty()
    } else {
        insert_by_id(sorted_by_id(jobs.drop_last()), jobs.last())
    }
}

/// Whether jobs are in the order of their sessions.
pub open spec fn ordered_by_id(jobs: Seq<SnapshotView>) -> bool {
    forall|i: int, j: int|
        0 <= i < j < jobs.len() ==> (#[trigger] jobs[i]).process_id <= (
        #[trigger] jobs[j]).process_id
}

fn place_by_id(jobs: &mut Vec<JobSnapshot>, job: JobSnapshot)
    ensures
        snapshot_views(final(jobs)@) == insert_by_id(snapshot_views(old(jobs)@), job@),
{
    let ghost all = snapshot_views(jobs@);
    let mut i: usize = jobs.len();
    assert(all.take(i as int) =~= all);
    assert(insert_by_id(all, job@) + all.skip(i as int) =~= insert_by_id(all, job@));
    while i > 0 && jobs[i - 1].process_id > job.process_id
        invariant
            i <= jobs.len(),
            *jobs == *old(jobs),
            all == snapshot_views(jobs@),
            insert_by_id(all, job@) == insert_by_id(all.take(i as int), job@) + all.skip(i as int),
        decreases i,
    {
        assert(all.take(i as int).drop_last() =~= all.take(i - 1));
        assert(all.take(i as int).last() == all[i - 1]);
        assert(insert_by_id(all.take(i - 1), job@).push(all[i - 1]) + all.skip(i as int)
            =~= insert_by_id(all.take(i - 1), job@) + all.skip(i - 1));
        i -= 1;
    }
    jobs.insert(i, job);
    assert(snapshot_views(jobs@) =~= all.take(i as int).push(job@) + all.skip(i as int));
}

/// Sorts the snapshots of live sessions by session.
pub fn sort_snapshots(snapshots: &Vec<JobSnapshot>) -> (r: Vec<JobSnapshot>)
    ensures
        snapshot_views(r@) == sorted_by_id(snapshot_views(snapshots@)),
{
    let ghost all = snapshot_views(snapshots@);
    let mut r: Vec<JobSnapshot> = Vec::new();
    let mut i: usize = 0;
    assert(all.take(0) =~= Seq::empty());
    assert(snapshot_views(r@) =~= Seq::empty());
    while i < snapshots.len()
        invariant
            i <= snapshots.len(),
            all == snapshot_views(snapshots@),
            snapshot_views(r@) == sorted_by_id(all.take(i as int)),
        decreases snapshots.len() - i,
    {
        assert(all.take(i + 1).drop_last() =~= all.take(i as int));
        assert(all.take(i + 1).last() == snapshots@[i as int]@);
        place_by_id(&mut r, snapshots[i].clone());
        i += 1;
    }
    assert(all.take(i as int) =~= all);
    r
}

/// What happens while a session is waited for.
#[derive(Clone, Copy, Debug, PartialEq, Eq, Structural)]
pub enum WaitEvent {
    /// The session was looked up.
    Looked {
        /// Whether the process has exited, where the session is live.
        live: Option<bool>,
        /// The exit code, as far as it is known, where the session is archived.
        archived: Option<Option<i32>>,
    },
    /// The process has exited.
    ProcessExited,
    /// The tool call was interrupted.
    Interrupted,
    /// The time is over.
    TimedOut,
    /// The exit code was read, before or after a pause.
    ExitCode { code: Option<i32>, paused: bool },
}

/// What to do next while a session is waited for.
#[derive(Clone, Copy, Debug, PartialEq, Eq, Structural)]
pub enum WaitStep {
    Done(JobWaitOutcome),
    /// Wait for the process, the interruption or the time, whichever is first.
    Await,
    ReadExitCode,
    /// Pause for a moment, then read the exit code: it is recorded slightly
    /// after the process exits.
    PauseThenReadExitCode,
}

/// What follows while a session is waited for. A session that is not live
/// resolves through the archive instead of being unknown.
pub open spec fn wait_after(event: WaitEvent) -> WaitStep {
    match event {
        WaitEvent::Looked { live: Some(exited), archived } => if exited {
            WaitStep::ReadExitCode
        } else {
            WaitStep::Await
        },
        WaitEvent::Looked { live: None, archived: Some(exit_code) } => WaitStep::Done(
            JobWaitOutcome::Exited { exit_code },
        ),
        WaitEvent::Looked { live: None, archived: None } => WaitStep::Done(
            JobWaitOutcome::Unknown,
        ),
        WaitEvent::ProcessExited => WaitStep::ReadExitCode,
        WaitEvent::Interrupted => WaitStep::Done(JobWaitOutcome::Interrupted),
        WaitEvent::TimedOut => WaitStep::Done(JobWaitOutcome::TimedOut),
        WaitEvent::ExitCode { code, paused } => if code is Some || paused {
            WaitStep::Done(JobWaitOutcome::Exited { exit_code: code })
        } else {
            WaitStep::PauseThenReadExitCode
        },
    }
}

/// Decides what follows while a session is waited for.
pub fn wait_step(event: WaitEvent) -> (r: WaitStep)
    ensures
        r == wait_after(event),
{
    match event {
        WaitEvent::Looked { live, archived } => match live {
            Some(exited) => if exited {
                WaitStep::ReadExitCode
            } else {
                WaitStep::Await
            },
            None => match archived {
                Some(exit_code) => WaitStep::Done(JobWaitOutcome::Exited { exit_code }),
                None => WaitStep::Done(JobWaitOutcome::Unknown),
            },
        },
        WaitEvent::ProcessExited => WaitStep::ReadExitCode,
        WaitEvent::Interrupted => WaitStep::Done(JobWaitOutcome::Interrupted),
        WaitEvent::TimedOut => WaitStep::Done(JobWaitOutcome::TimedOut),
        WaitEvent::ExitCode { code, paused } => if code.is_some() || paused {
            WaitStep::Done(JobWaitOutcome::Exited { exit_code: code })
        } else {
            WaitStep::PauseThenReadExitCode
        },
    }
}

impl CompletedJobs {
    /// Begins to wait for a session, given whether it is live and has exited.
    pub fn begin_wait(&self, process_id: i32, live: Option<bool>) -> (r: WaitStep)
        ensures
            r == wait_after(
                WaitEvent::Looked {
                    live,
                    archived: match job_position(self@, process_id, 0) {
                        Some(k) => Some(self@[k].exit_code),
                        None => None,
                    },
                },
            ),
    {
        let archived = match self.completed_job(process_id) {
            Some(job) => Some(job.exit_code),
            None => None,
        };
        wait_step(WaitEvent::Looked { live, archived })
    }
}

/// Where `job_position` stops.
pub proof fn lemma_job_position(jobs: Seq<SnapshotView>, process_id: i32, from: int)
    requires
        0 <= from,
    ensures
        match job_position(jobs, process_id, from) {
            Some(k) => from <= k < jobs.len() && jobs[k].process_id == process_id,
            None => forall|i: int|
                from <= i < jobs.len() ==> (#[trigger] jobs[i]).process_id != process_id,
        },
    decreases jobs.len() - from,
{
    if from < jobs.len() && jobs[from].process_id != process_id {
        lemma_job_position(jobs, process_id, from + 1);
    }
}

proof fn lemma_other_jobs(jobs: Seq<SnapshotView>, process_id: i32)
    ensures
        other_jobs(jobs, process_id).len() <= jobs.len(),
        forall|i: int|
            0 <= i < other_jobs(jobs, process_id).len() ==> (#[trigger] other_jobs(
                jobs,
                process_id,
            )[i]).process_id != process_id,
        forall|i: int|
            0 <= i < other_jobs(jobs, process_id).len() ==> jobs.contains(
                #[trigger] other_jobs(jobs, process_id)[i],
            ),
        distinct_ids(jobs) ==> distinct_ids(other_jobs(jobs, process_id)),
    decreases jobs.len(),
{
    if jobs.len() > 0 {
        let rest = jobs.drop_last();
        let before = other_jobs(rest, process_id);
        let after = other_jobs(jobs, process_id);
        lemma_other_jobs(rest, process_id);
        assert forall|i: int| 0 <= i < after.len() implies jobs.contains(#[trigger] after[i]) by {
            if i < before.len() {
                assert(after[i] == before[i]);
                let k = choose|k: int| 0 <= k < rest.len() && rest[k] == before[i];
                assert(jobs[k] == after[i]);
            } else {
                assert(jobs[jobs.len() - 1] == after[i]);
            }
        }
        if distinct_ids(jobs) {
            assert forall|i: int, j: int| 0 <= i < j < rest.len() implies (
            #[trigger] rest[i]).process_id != (#[trigger] rest[j]).process_id by {
                assert(rest[i] == jobs[i] && rest[j] == jobs[j]);
            }
            assert forall|i: int, j: int| 0 <= i < j < after.len() implies (
            #[trigger] after[i]).process_id != (#[trigger] after[j]).process_id by {
                assert(after[i] == before[i]);
                if j < before.len() {
                    assert(after[j] == before[j]);
                } else {
                    let k = choose|k: int| 0 <= k < rest.len() && rest[k] == before[i];
                    assert(jobs[k] == before[i]);
                    assert(jobs[jobs.len() - 1] == after[j]);
                }
            }
        }
    }
}

/// The archive keeps at most so many jobs and one of each session, and answers
/// for the job that was archived last with just that job.
pub proof fn lemma_archived(jobs: Seq<SnapshotView>, job: SnapshotView)
    requires
        distinct_ids(jobs),
    ensures
        archived(jobs, job).len() <= MAX_COMPLETED_JOBS,
        distinct_ids(archived(jobs, job)),
        archived(jobs, job).last() == job,
        job_position(archived(jobs, job), job.process_id, 0) == Some(
            archived(jobs, job).len() - 1,
        ),
{
    let others = other_jobs(jobs, job.process_id);
    let all = others.push(job);
    let after = archived(jobs, job);
    lemma_other_jobs(jobs, job.process_id);
    let shift = all.len() - after.len();
    assert forall|i: int, j: int| 0 <= i < j < after.len() implies (
    #[trigger] after[i]).process_id != (#[trigger] after[j]).process_id by {
        assert(after[i] == all[i + shift] && after[j] == all[j + shift]);
        assert(all[i + shift] == others[i + shift]);
        if j + shift < others.len() {
            assert(all[j + shift] == others[j + shift]);
        }
    }
    lemma_job_position(after, job.process_id, 0);
    assert(after[after.len() - 1] == job);
}

proof fn lemma_insert_by_id(jobs: Seq<SnapshotView>, job: SnapshotView)
    requires
        ordered_by_id(jobs),
    ensures
        ordered_by_id(insert_by_id(jobs, job)),
        insert_by_id(jobs, job).to_multiset() == jobs.to_multiset().insert(job),
        forall|i: int|
            0 <= i < insert_by_id(jobs, job).len() ==> (#[trigger] insert_by_id(
                jobs,
                job,
            )[i]).process_id <= job.process_id || exists|k: int|
                0 <= k < jobs.len() && jobs[k] == insert_by_id(jobs, job)[i],
        forall|i: int|
            0 <= i < insert_by_id(jobs, job).len() && jobs.len() > 0 && jobs.last().process_id
                > job.process_id ==> (#[trigger] insert_by_id(jobs, job)[i]).process_id
                <= jobs.last().process_id,
    decreases jobs.len(),
{
    broadcast use vstd::seq_lib::group_to_multiset_ensures;

    let after = insert_by_id(jobs, job);
    if jobs.len() == 0 || jobs.last().process_id <= job.process_id {
        assert forall|i: int, j: int| 0 <= i < j < after.len() implies (
        #[trigger] after[i]).process_id <= (#[trigger] after[j]).process_id by {
            assert(after[i] == jobs[i]);
            if j < jobs.len() {
                assert(after[j] == jobs[j]);
            } else if i < jobs.len() - 1 {
                assert(jobs[i].process_id <= jobs[jobs.len() - 1].process_id);
            }
        }
        assert forall|i: int| 0 <= i < after.len() implies (#[trigger] after[i]).process_id
            <= job.process_id || exists|k: int| 0 <= k < jobs.len() && jobs[k] == after[i] by {
            if i < jobs.len() {
                assert(jobs[i] == after[i]);
            }
        }
    } else {
        let rest = jobs.drop_last();
        let last = jobs.last();
        assert forall|i: int, j: int| 0 <= i < j < rest.len() implies (
        #[trigger] rest[i]).process_id <= (#[trigger] rest[j]).process_id by {
            assert(rest[i] == jobs[i] && rest[j] == jobs[j]);
        }
        lemma_insert_by_id(rest, job);
        let before = insert_by_id(rest, job);
        assert forall|i: int| 0 <= i < before.len() implies (#[trigger] before[i]).process_id
            <= last.process_id by {
            if before[i].process_id > job.process_id {
                let k = choose|k: int| 0 <= k < rest.len() && rest[k] == before[i];
                assert(jobs[k] == before[i]);
                assert(jobs[jobs.len() - 1] == last);
            }
        }
        assert forall|i: int, j: int| 0 <= i < j < after.len() implies (
        #[trigger] after[i]).process_id <= (#[trigger] after[j]).process_id by {
            assert(after[i] == before[i]);
            if j < before.len() {
                assert(after[j] == before[j]);
            }
        }
        assert forall|i: int| 0 <= i < after.len() implies (#[trigger] after[i]).process_id
            <= job.process_id || exists|k: int| 0 <= k < jobs.len() && jobs[k] == after[i] by {
            if i < before.len() {
                assert(after[i] == before[i]);
                if before[i].process_id > job.process_id {
                    let k = choose|k: int| 0 <= k < rest.len() && rest[k] == before[i];
                    assert(jobs[k] == after[i]);
                }
            } else {
                assert(jobs[jobs.len() - 1] == after[i]);
            }
        }
        assert(rest.push(last) =~= jobs);
        assert(after.to_multiset() =~= jobs.to_multiset().insert(job));
    }
}

/// Sorting orders the jobs by session, and neither loses nor adds one.
pub proof fn lemma_sorted_by_id(jobs: Seq<SnapshotView>)
    ensures
        ordered_by_id(sorted_by_id(jobs)),
        sorted_by_id(jobs).to_multiset() == jobs.to_multiset(),
    decreases jobs.len(),
{
    broadcast use vstd::seq_lib::group_to_multiset_ensures;

    if jobs.len() > 0 {
        let rest = jobs.drop_last();
        lemma_sorted_by_id(rest);
        lemma_insert_by_id(sorted_by_id(rest), jobs.last());
        assert(rest.push(jobs.last()) =~= jobs);
    }
}

} // verus!
