//! The background jobs of a thread, by session.

use vstd::prelude::*;

use crate::jobs::{JobView, NativeBackgroundJob};
use crate::text::str_eq;

verus! {

/// Whether a session has a job.
pub open spec fn has_job(jobs: Seq<NativeBackgroundJob>, process_id: Seq<char>) -> bool {
    exists|i: int| 0 <= i < jobs.len() && (#[trigger] jobs[i])@.process_id == process_id
}

/// Whether no session has two jobs.
pub open spec fn distinct_sessions(jobs: Seq<NativeBackgroundJob>) -> bool {
    forall|i: int, j: int|
        0 <= i < j < jobs.len() ==> (#[trigger] jobs[i])@.process_id != (
        #[trigger] jobs[j])@.process_id
}

/// The job of each session.
pub open spec fn job_map(jobs: Seq<NativeBackgroundJob>) -> Map<Seq<char>, JobView> {
    Map::new(
        |process_id: Seq<char>| has_job(jobs, process_id),
        |process_id: Seq<char>|
            jobs[choose|i: int|
                0 <= i < jobs.len() && (#[trigger] jobs[i])@.process_id == process_id]@,
    )
}

/// The job that a session has after `job` was recorded: what is known of the
/// session stays.
pub open spec fn job_after(jobs: Map<Seq<char>, JobView>, job: JobView) -> JobView {
    if jobs.dom().contains(job.process_id) {
        jobs[job.process_id].merged(job)
    } else {
        job
    }
}

/// The line of the job that a session had before.
pub open spec fn summary_before(jobs: Map<Seq<char>, JobView>, process_id: Seq<char>) -> Option<
    Seq<char>,
> {
    if jobs.dom().contains(process_id) {
        Some(jobs[process_id].summary())
    } else {
        None
    }
}

/// A job stands in the map under its session.
pub proof fn lemma_job_map(jobs: Seq<NativeBackgroundJob>, i: int)
    requires
        distinct_sessions(jobs),
        0 <= i < jobs.len(),
    ensures
        job_map(jobs).dom().contains(jobs[i]@.process_id),
        job_map(jobs)[jobs[i]@.process_id] == jobs[i]@,
{
    let process_id = jobs[i]@.process_id;
    assert(has_job(jobs, process_id));
    let k = choose|k: int| 0 <= k < jobs.len() && (#[trigger] jobs[k])@.process_id == process_id;
    assert(k == i);
}

/// The position of a session's job.
pub fn find_job(jobs: &Vec<NativeBackgroundJob>, process_id: &str) -> (r: Option<usize>)
    ensures
        r matches Some(i) ==> i < jobs.len() && jobs@[i as int]@.process_id == process_id@,
        r is None ==> !has_job(jobs@, process_id@),
{
    let mut i: usize = 0;
    while i < jobs.len()
        invariant
            i <= jobs.len(),
            forall|j: int| 0 <= j < i ==> (#[trigger] jobs@[j])@.process_id != process_id@,
        decreases jobs.len() - i,
    {
        if str_eq(jobs[i].process_id.as_str(), process_id) {
            return Some(i);
        }
        i += 1;
    }
    None
}

proof fn lemma_map_update(jobs: Seq<NativeBackgroundJob>, i: int, job: NativeBackgroundJob)
    requires
        distinct_sessions(jobs),
        0 <= i < jobs.len(),
        job@.process_id == jobs[i]@.process_id,
    ensures
        distinct_sessions(jobs.update(i, job)),
        job_map(jobs.update(i, job)) == job_map(jobs).insert(job@.process_id, job@),
{
    let after = jobs.update(i, job);
    assert forall|m: int, n: int| 0 <= m < n < after.len() implies (
    #[trigger] after[m])@.process_id != (#[trigger] after[n])@.process_id by {
        assert(jobs[m]@.process_id != jobs[n]@.process_id);
    }
    let goal = job_map(jobs).insert(job@.process_id, job@);
    assert forall|id: Seq<char>| job_map(after).dom().contains(id) <==> goal.dom().contains(id) by {
        if has_job(jobs, id) {
            let k = choose|k: int| 0 <= k < jobs.len() && (#[trigger] jobs[k])@.process_id == id;
            assert(after[k]@.process_id == id);
        }
        if has_job(after, id) {
            let k = choose|k: int| 0 <= k < after.len() && (#[trigger] after[k])@.process_id == id;
            assert(jobs[k]@.process_id == id);
        }
        if id == job@.process_id {
            assert(after[i]@.process_id == id);
        }
    }
    assert forall|id: Seq<char>| job_map(after).dom().contains(id) implies job_map(after)[id]
        == goal[id] by {
        let k = choose|k: int| 0 <= k < after.len() && (#[trigger] after[k])@.process_id == id;
        lemma_job_map(after, k);
        lemma_job_map(jobs, k);
        if k != i {
            assert(jobs[k]@.process_id == id);
            assert(jobs[i]@.process_id != id);
        }
    }
    assert(job_map(after) =~= goal);
}

/// A job of a new session joins the table.
pub proof fn lemma_map_push(jobs: Seq<NativeBackgroundJob>, job: NativeBackgroundJob)
    requires
        distinct_sessions(jobs),
        !has_job(jobs, job@.process_id),
    ensures
        distinct_sessions(jobs.push(job)),
        job_map(jobs.push(job)) == job_map(jobs).insert(job@.process_id, job@),
{
    let after = jobs.push(job);
    assert forall|m: int, n: int| 0 <= m < n < after.len() implies (
    #[trigger] after[m])@.process_id != (#[trigger] after[n])@.process_id by {
        assert(after[m] == jobs[m]);
        if n < jobs.len() {
            assert(after[n] == jobs[n]);
        }
    }
    let goal = job_map(jobs).insert(job@.process_id, job@);
    assert forall|id: Seq<char>| job_map(after).dom().contains(id) <==> goal.dom().contains(id) by {
        if has_job(jobs, id) {
            let k = choose|k: int| 0 <= k < jobs.len() && (#[trigger] jobs[k])@.process_id == id;
            assert(after[k]@.process_id == id);
        }
        if has_job(after, id) {
            let k = choose|k: int| 0 <= k < after.len() && (#[trigger] after[k])@.process_id == id;
            if k < jobs.len() {
                assert(jobs[k]@.process_id == id);
            }
        }
        if id == job@.process_id {
            assert(after[jobs.len() as int]@.process_id == id);
        }
    }
    assert forall|id: Seq<char>| job_map(after).dom().contains(id) implies job_map(after)[id]
        == goal[id] by {
        let k = choose|k: int| 0 <= k < after.len() && (#[trigger] after[k])@.process_id == id;
        lemma_job_map(after, k);
        if k < jobs.len() {
            lemma_job_map(jobs, k);
            assert(jobs[k]@.process_id == id);
        }
    }
    assert(job_map(after) =~= goal);
}

proof fn lemma_map_remove(jobs: Seq<NativeBackgroundJob>, i: int)
    requires
        distinct_sessions(jobs),
        0 <= i < jobs.len(),
    ensures
        distinct_sessions(jobs.remove(i)),
        job_map(jobs.remove(i)) == job_map(jobs).remove(jobs[i]@.process_id),
{
    let after = jobs.remove(i);
    assert forall|m: int| 0 <= m < after.len() implies #[trigger] after[m] == jobs[if m < i {
        m
    } else {
        m + 1
    }] by {}
    assert forall|m: int, n: int| 0 <= m < n < after.len() implies (
    #[trigger] after[m])@.process_id != (#[trigger] after[n])@.process_id by {}
    let goal = job_map(jobs).remove(jobs[i]@.process_id);
    assert forall|id: Seq<char>| job_map(after).dom().contains(id) <==> goal.dom().contains(id) by {
        if has_job(jobs, id) && id != jobs[i]@.process_id {
            let k = choose|k: int| 0 <= k < jobs.len() && (#[trigger] jobs[k])@.process_id == id;
            let m = if k < i {
                k
            } else {
                k - 1
            };
            assert(after[m] == jobs[k]);
            assert(has_job(after, id));
        }
        if has_job(after, id) {
            let k = choose|k: int| 0 <= k < after.len() && (#[trigger] after[k])@.process_id == id;
            let m = if k < i {
                k
            } else {
                k + 1
            };
            assert(jobs[m]@.process_id == id);
            assert(has_job(jobs, id));
        }
    }
    assert forall|id: Seq<char>| job_map(after).dom().contains(id) implies job_map(after)[id]
        == goal[id] by {
        let k = choose|k: int| 0 <= k < after.len() && (#[trigger] after[k])@.process_id == id;
        lemma_job_map(after, k);
        let m = if k < i {
            k
        } else {
            k + 1
        };
        lemma_job_map(jobs, m);
    }
    assert(job_map(after) =~= goal);
}

/// Records what is known of a session's job, and returns the line of the job
/// before and the job after.
pub fn upsert_job(jobs: &mut Vec<NativeBackgroundJob>, job: NativeBackgroundJob) -> (r: (
    Option<String>,
    NativeBackgroundJob,
))
    requires
        distinct_sessions(old(jobs)@),
    ensures
        distinct_sessions(final(jobs)@),
        crate::text::opt_text(r.0) == summary_before(job_map(old(jobs)@), job@.process_id),
        r.1@ == job_after(job_map(old(jobs)@), job@),
        job_map(final(jobs)@) == job_map(old(jobs)@).insert(job@.process_id, r.1@),
{
    match find_job(&*jobs, job.process_id.as_str()) {
        Some(i) => {
            proof {
                lemma_job_map(jobs@, i as int);
            }
            let summary = jobs[i].summary();
            let mut merged = jobs[i].clone();
            merged.merge_from(job);
            proof {
                lemma_map_update(jobs@, i as int, merged);
            }
            let copy = merged.clone();
            jobs.set(i, merged);
            (Some(summary), copy)
        },
        None => {
            proof {
                lemma_map_push(jobs@, job);
            }
            let copy = job.clone();
            jobs.push(job);
            (None, copy)
        },
    }
}

/// Takes a session's job out.
pub fn remove_job(jobs: &mut Vec<NativeBackgroundJob>, process_id: &str) -> (r: Option<
    NativeBackgroundJob,
>)
    requires
        distinct_sessions(old(jobs)@),
    ensures
        distinct_sessions(final(jobs)@),
        r is Some <==> job_map(old(jobs)@).dom().contains(process_id@),
        r matches Some(job) ==> job@ == job_map(old(jobs)@)[process_id@],
        job_map(final(jobs)@) == job_map(old(jobs)@).remove(process_id@),
{
    match find_job(&*jobs, process_id) {
        Some(i) => {
            proof {
                lemma_job_map(jobs@, i as int);
                lemma_map_remove(jobs@, i as int);
            }
            Some(jobs.remove(i))
        },
        None => {
            assert(job_map(jobs@).remove(process_id@) =~= job_map(jobs@));
            None
        },
    }
}

/// A copy of a session's job.
pub fn get_job(jobs: &Vec<NativeBackgroundJob>, process_id: &str) -> (r: Option<
    NativeBackgroundJob,
>)
    requires
        distinct_sessions(jobs@),
    ensures
        r is Some <==> job_map(jobs@).dom().contains(process_id@),
        r matches Some(job) ==> job@ == job_map(jobs@)[process_id@],
{
    match find_job(jobs, process_id) {
        Some(i) => {
            proof {
                lemma_job_map(jobs@, i as int);
            }
            Some(jobs[i].clone())
        },
        None => None,
    }
}

} // verus!
