//! Age-based garbage collection for Link sidecar files.
//!
//! Link writes three kinds of per-thread sidecar files: durable context state
//! (`context/<thread_id>.json`), spilled tool output
//! (`tool-output/<thread_id>/*.txt`), and background exec logs
//! (`jobs/<thread_id>/exec-*.log`). Nothing else reclaims them, so each thread
//! start sweeps files whose last modification is older than
//! [`MAX_SIDECAR_AGE_SECS`]. Anything still in use is rewritten or re-created
//! by its thread, which makes the time of modification a safe liveness signal.
//!
//! Times are nanoseconds since the Unix epoch.

use vstd::prelude::*;

use crate::search::{has_prefix, starts_with};
use crate::text::{owned, str_eq};

verus! {

/// How old a sidecar file gets, in seconds.
pub const MAX_SIDECAR_AGE_SECS: u64 = 1_209_600;

/// The directory of flat files, below the Link directory.
pub const CONTEXT_DIR: &'static str = "context";

/// The directories of per-thread directories, below the Link directory.
pub const TOOL_OUTPUT_DIR: &'static str = "tool-output";

pub const JOBS_DIR: &'static str = "jobs";

/// An entry of a directory; its time is unknown where it could not be read.
#[derive(Debug, PartialEq, Eq)]
pub struct SidecarFile {
    pub name: String,
    pub modified: Option<i128>,
}

/// An entry of a directory of per-thread directories.
#[derive(Debug, PartialEq, Eq)]
pub struct ThreadEntry {
    pub name: String,
    pub modified: Option<i128>,
    /// The files of a directory; none where the entry is no directory.
    pub files: Option<Vec<SidecarFile>>,
}

/// What to do with one entry of a directory of per-thread directories.
#[derive(Debug, PartialEq, Eq)]
pub enum ThreadSweep {
    Keep,
    /// Remove the entry, which is a file.
    RemoveFile,
    /// Remove these files of the directory, in order, and then the directory
    /// itself where it is empty.
    Sweep(Vec<usize>),
}

/// Whether an entry was last modified before the cutoff.
pub open spec fn is_stale(modified: Option<i128>, cutoff: i128) -> bool {
    modified matches Some(time) && time < cutoff
}

/// Whether a flat file belongs to a thread: its name is the thread's id, a dot
/// and an ending (`<thread_id>.json`, `<thread_id>.json.tmp`).
pub open spec fn is_of_thread(name: Seq<char>, thread_id: Seq<char>) -> bool {
    has_prefix(name, thread_id.push('.'))
}

/// Whether a flat file is removed: it is stale, and it does not belong to the
/// current thread.
pub open spec fn sweeps_flat(file: SidecarFile, current: Seq<char>, cutoff: i128) -> bool {
    !is_of_thread(file.name@, current) && is_stale(file.modified, cutoff)
}

/// The positions below `n` that satisfy a test, in order.
pub open spec fn positions(n: nat, test: spec_fn(int) -> bool) -> Seq<int>
    decreases n,
{
    if n == 0 {
        Seq::empty()
    } else {
        let before = positions((n - 1) as nat, test);
        if test(n - 1) {
            before.push(n - 1)
        } else {
            before
        }
    }
}

/// A list of positions, as integers.
pub open spec fn as_ints(indices: Seq<usize>) -> Seq<int> {
    Seq::new(indices.len(), |i: int| indices[i] as int)
}

/// The positions of the flat files that are removed.
pub open spec fn flat_sweep(files: Seq<SidecarFile>, current: Seq<char>, cutoff: i128) -> Seq<
    int,
> {
    positions(files.len(), |i: int| sweeps_flat(files[i], current, cutoff))
}

/// The positions of the stale files.
pub open spec fn stale_files(files: Seq<SidecarFile>, cutoff: i128) -> Seq<int> {
    positions(files.len(), |i: int| is_stale(files[i].modified, cutoff))
}

/// The time before which files are stale; none where there is no such time.
pub fn sidecar_cutoff(now: i128, max_age_secs: u64) -> (r: Option<i128>)
    ensures
        r matches Some(cutoff) ==> cutoff == now - max_age_secs * 1_000_000_000,
        r is None <==> now - max_age_secs * 1_000_000_000 < i128::MIN,
{
    let age: i128 = max_age_secs as i128 * 1_000_000_000;
    if now >= i128::MIN + age {
        Some(now - age)
    } else {
        None
    }
}

fn stale(modified: Option<i128>, cutoff: i128) -> (r: bool)
    ensures
        r == is_stale(modified, cutoff),
{
    match modified {
        Some(time) => time < cutoff,
        None => false,
    }
}

fn of_thread(name: &str, thread_id: &str) -> (r: bool)
    ensures
        r == is_of_thread(name@, thread_id@),
{
    let mut prefix = owned(thread_id);
    prefix.push('.');
    starts_with(name, prefix.as_str())
}

/// Chooses the files of a directory of `<thread_id>.json` files to remove: the
/// stale ones that do not belong to the current thread.
pub fn gc_flat_dir(files: &Vec<SidecarFile>, current_thread_id: &str, cutoff: i128) -> (r: Vec<
    usize,
>)
    ensures
        as_ints(r@) == flat_sweep(files@, current_thread_id@, cutoff),
{
    let mut r: Vec<usize> = Vec::new();
    let mut i: usize = 0;
    let ghost test = |i: int| sweeps_flat(files@[i], current_thread_id@, cutoff);
    assert(as_ints(r@) =~= Seq::empty());
    while i < files.len()
        invariant
            i <= files.len(),
            test == (|i: int| sweeps_flat(files@[i], current_thread_id@, cutoff)),
            as_ints(r@) == positions(i as nat, test),
        decreases files.len() - i,
    {
        if !of_thread(files[i].name.as_str(), current_thread_id) && stale(
            files[i].modified,
            cutoff,
        ) {
            let ghost before = r@;
            r.push(i);
            assert(as_ints(r@) =~= as_ints(before).push(i as int));
        }
        i += 1;
    }
    r
}

/// Chooses the stale files of one directory.
pub fn gc_stale_files(files: &Vec<SidecarFile>, cutoff: i128) -> (r: Vec<usize>)
    ensures
        as_ints(r@) == stale_files(files@, cutoff),
{
    let mut r: Vec<usize> = Vec::new();
    let mut i: usize = 0;
    let ghost test = |i: int| is_stale(files@[i].modified, cutoff);
    assert(as_ints(r@) =~= Seq::empty());
    while i < files.len()
        invariant
            i <= files.len(),
            test == (|i: int| is_stale(files@[i].modified, cutoff)),
            as_ints(r@) == positions(i as nat, test),
        decreases files.len() - i,
    {
        if stale(files[i].modified, cutoff) {
            let ghost before = r@;
            r.push(i);
            assert(as_ints(r@) =~= as_ints(before).push(i as int));
        }
        i += 1;
    }
    r
}

/// Decides what happens to one entry of a directory of per-thread directories.
pub fn gc_thread_entry(entry: &ThreadEntry, current_thread_id: &str, cutoff: i128) -> (r:
    ThreadSweep)
    ensures
        entry.name@ == current_thread_id@ ==> r is Keep,
        entry.name@ != current_thread_id@ ==> match entry.files {
            None => if is_stale(entry.modified, cutoff) {
                r is RemoveFile
            } else {
                r is Keep
            },
            Some(files) => r matches ThreadSweep::Sweep(removed) && as_ints(removed@)
                == stale_files(files@, cutoff),
        },
{
    if str_eq(entry.name.as_str(), current_thread_id) {
        return ThreadSweep::Keep;
    }
    match &entry.files {
        None => if stale(entry.modified, cutoff) {
            ThreadSweep::RemoveFile
        } else {
            ThreadSweep::Keep
        },
        Some(files) => ThreadSweep::Sweep(gc_stale_files(files, cutoff)),
    }
}

/// `positions` holds exactly the positions that satisfy the test, ascending.
pub proof fn lemma_positions(n: nat, test: spec_fn(int) -> bool)
    ensures
        forall|k: int|
            0 <= k < positions(n, test).len() ==> 0 <= #[trigger] positions(n, test)[k] < n && test(
                positions(n, test)[k],
            ),
        forall|i: int| 0 <= i < n && #[trigger] test(i) ==> positions(n, test).contains(i),
        forall|a: int, b: int|
            0 <= a < b < positions(n, test).len() ==> (#[trigger] positions(n, test)[a]) < (
            #[trigger] positions(n, test)[b]),
    decreases n,
{
    if n > 0 {
        let m = (n - 1) as nat;
        lemma_positions(m, test);
        let before = positions(m, test);
        let after = positions(n, test);
        assert forall|i: int| 0 <= i < n && #[trigger] test(i) implies after.contains(i) by {
            if i < m {
                let k = choose|k: int| 0 <= k < before.len() && before[k] == i;
                assert(after[k] == i);
            } else {
                assert(after[after.len() - 1] == i);
            }
        }
    }
}

/// A sweep of flat files removes no file of the current thread and no fresh
/// file, and every stale file of another thread.
pub proof fn lemma_flat_sweep(files: Seq<SidecarFile>, current: Seq<char>, cutoff: i128, i: int)
    requires
        0 <= i < files.len(),
    ensures
        flat_sweep(files, current, cutoff).contains(i) <==> !is_of_thread(files[i].name@, current)
            && is_stale(files[i].modified, cutoff),
{
    let test = |i: int| sweeps_flat(files[i], current, cutoff);
    lemma_positions(files.len(), test);
    assert(test(i) <==> sweeps_flat(files[i], current, cutoff));
}

/// A sweep of a thread's directory removes exactly its stale files.
pub proof fn lemma_stale_files(files: Seq<SidecarFile>, cutoff: i128, i: int)
    requires
        0 <= i < files.len(),
    ensures
        stale_files(files, cutoff).contains(i) <==> is_stale(files[i].modified, cutoff),
{
    let test = |i: int| is_stale(files[i].modified, cutoff);
    lemma_positions(files.len(), test);
    assert(test(i) <==> is_stale(files[i].modified, cutoff));
}

} // verus!
