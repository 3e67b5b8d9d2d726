//! What holds of looking for files: which directory is the project root, and
//! which file of each directory is read.

use vstd::prelude::*;

use crate::md_discovery::{
    files_from, first_file, lemma_scan_finds_preferred, scanned, Answers, ScanView,
};
use crate::md_loader::PathKind;
use crate::md_reader::{
    holds_marker, lemma_root_is_nearest, nearest_root, root_scanned, ReaderView, RootScanView,
};

verus! {

/// Whether a marker of any kind lies in a directory.
pub open spec fn is_marked(
    kinds: spec_fn(int, int) -> PathKind,
    directory: int,
    markers: int,
) -> bool {
    exists|m: int| 0 <= m < markers && #[trigger] kinds(directory, m) != PathKind::NotFound
}

proof fn lemma_marked(
    kinds: spec_fn(int, int) -> PathKind,
    directory: int,
    from: int,
    markers: int,
)
    requires
        0 <= from,
    ensures
        holds_marker(kinds, directory, from, markers) <==> exists|m: int|
            from <= m < markers && #[trigger] kinds(directory, m) != PathKind::NotFound,
    decreases markers - from,
{
    if from < markers {
        lemma_marked(kinds, directory, from + 1, markers);
        if kinds(directory, from) == PathKind::NotFound && exists|m: int|
            from <= m < markers && #[trigger] kinds(directory, m) != PathKind::NotFound {
            let m = choose|m: int|
                from <= m < markers && #[trigger] kinds(directory, m) != PathKind::NotFound;
            assert(from + 1 <= m);
        }
    }
}

proof fn lemma_nearest(
    ancestors: Seq<Seq<char>>,
    kinds: spec_fn(int, int) -> PathKind,
    from: int,
    markers: int,
)
    requires
        0 <= from,
    ensures
        match nearest_root(ancestors, kinds, from, markers) {
            Some(root) => exists|d: int|
                from <= d < ancestors.len() && root == ancestors[d] && #[trigger] is_marked(
                    kinds,
                    d,
                    markers,
                ) && forall|e: int| from <= e < d ==> !#[trigger] is_marked(kinds, e, markers),
            None => forall|d: int|
                from <= d < ancestors.len() ==> !#[trigger] is_marked(kinds, d, markers),
        },
    decreases ancestors.len() - from,
{
    if from < ancestors.len() {
        lemma_marked(kinds, from, 0, markers);
        if holds_marker(kinds, from, 0, markers) {
            assert(is_marked(kinds, from, markers));
        } else {
            assert(!is_marked(kinds, from, markers));
            lemma_nearest(ancestors, kinds, from + 1, markers);
            match nearest_root(ancestors, kinds, from + 1, markers) {
                Some(root) => {
                    let d = choose|d: int|
                        from + 1 <= d < ancestors.len() && root == ancestors[d]
                            && #[trigger] is_marked(kinds, d, markers) && forall|e: int|
                            from + 1 <= e < d ==> !#[trigger] is_marked(kinds, e, markers);
                    assert forall|e: int| from <= e < d implies !#[trigger] is_marked(
                        kinds,
                        e,
                        markers,
                    ) by {
                        if e > from {
                            assert(from + 1 <= e);
                        }
                    }
                },
                None => {},
            }
        }
    }
}

/// The root that is found is a directory in which some marker lies, and none
/// lies in a directory nearer to the start. Where none is found, no marker lies
/// anywhere.
pub proof fn lemma_root_holds_marker(
    ancestors: Seq<Seq<char>>,
    markers: Seq<Seq<char>>,
    kinds: spec_fn(int, int) -> PathKind,
)
    requires
        forall|d: int, m: int|
            0 <= d < ancestors.len() && 0 <= m < markers.len() ==> #[trigger] kinds(d, m)
                != PathKind::Failed,
    ensures
        match root_scanned(RootScanView::new(ancestors, markers), kinds).root {
            Some(root) => exists|d: int|
                0 <= d < ancestors.len() && root == ancestors[d] && #[trigger] is_marked(
                    kinds,
                    d,
                    markers.len() as int,
                ) && forall|e: int|
                    0 <= e < d ==> !#[trigger] is_marked(kinds, e, markers.len() as int),
            None => forall|d: int|
                0 <= d < ancestors.len() ==> !#[trigger] is_marked(
                    kinds,
                    d,
                    markers.len() as int,
                ),
        },
{
    lemma_root_is_nearest(ancestors, markers, kinds);
    lemma_nearest(ancestors, kinds, 0, markers.len() as int);
}

/// Whether a name is that of the file that is read in a directory: the first
/// one that is a file.
pub open spec fn is_preferred(answers: Answers, directory: int, name: int, names: int) -> bool {
    &&& 0 <= name < names
    &&& (answers.kind)(directory, name) == PathKind::File
    &&& forall|m: int|
        0 <= m < name ==> #[trigger] (answers.kind)(directory, m) != PathKind::File
}

/// Whether files are those that are read: of each directory in `at` the
/// preferred one, while the other directories from `from` on hold none.
pub open spec fn are_preferred(
    files: Seq<Seq<char>>,
    at: Seq<(int, int)>,
    answers: Answers,
    from: int,
    directories: int,
    names: int,
) -> bool {
    &&& files.len() == at.len()
    &&& forall|j: int|
        #![trigger at[j]]
        0 <= j < at.len() ==> {
            &&& from <= at[j].0 < directories
            &&& is_preferred(answers, at[j].0, at[j].1, names)
            &&& files[j] == (answers.path)(at[j].0, at[j].1)
        }
    &&& forall|i: int, j: int|
        0 <= i < j < at.len() ==> (#[trigger] at[i]).0 < (#[trigger] at[j]).0
    &&& forall|d: int, n: int|
        from <= d < directories && #[trigger] is_preferred(answers, d, n, names) ==> at.contains(
            (d, n),
        )
}

proof fn lemma_first_file(answers: Answers, directory: int, from: int, count: int)
    requires
        0 <= from,
        forall|m: int|
            0 <= m < from ==> #[trigger] (answers.kind)(directory, m) != PathKind::File,
    ensures
        match first_file(answers, directory, from, count) {
            Some(name) => is_preferred(answers, directory, name, count),
            None => forall|n: int| !#[trigger] is_preferred(answers, directory, n, count),
        },
    decreases count - from,
{
    if from < count && (answers.kind)(directory, from) != PathKind::File {
        assert forall|m: int| 0 <= m < from + 1 implies #[trigger] (answers.kind)(directory, m)
            != PathKind::File by {
            if m < from {
            } else {
                assert(m == from);
            }
        }
        lemma_first_file(answers, directory, from + 1, count);
    }
}

proof fn lemma_files_places(
    answers: Answers,
    from: int,
    directories: int,
    names: int,
) -> (at: Seq<(int, int)>)
    ensures
        are_preferred(
            files_from(answers, from, directories, names),
            at,
            answers,
            from,
            directories,
            names,
        ),
    decreases directories - from,
{
    let files = files_from(answers, from, directories, names);
    if from >= directories {
        Seq::empty()
    } else {
        let rest = lemma_files_places(answers, from + 1, directories, names);
        lemma_first_file(answers, from, 0, names);
        match first_file(answers, from, 0, names) {
            Some(name) => {
                let at = seq![(from, name)] + rest;
                assert forall|j: int| #![trigger at[j]] 0 <= j < at.len() implies {
                    &&& from <= at[j].0 < directories
                    &&& is_preferred(answers, at[j].0, at[j].1, names)
                    &&& files[j] == (answers.path)(at[j].0, at[j].1)
                } by {
                    if j > 0 {
                        assert(at[j] == rest[j - 1]);
                    }
                }
                assert forall|i: int, j: int| 0 <= i < j < at.len() implies (#[trigger] at[i]).0 < (
                #[trigger] at[j]).0 by {
                    assert(at[j] == rest[j - 1]);
                    if i > 0 {
                        assert(at[i] == rest[i - 1]);
                    }
                }
                assert forall|d: int, n: int|
                    from <= d < directories && #[trigger] is_preferred(
                        answers,
                        d,
                        n,
                        names,
                    ) implies at.contains((d, n)) by {
                    if d == from {
                        if n < name {
                            assert((answers.kind)(d, n) != PathKind::File);
                        }
                        if name < n {
                            assert((answers.kind)(d, name) != PathKind::File);
                        }
                        assert(at[0] == (d, n));
                    } else {
                        let k = choose|k: int| 0 <= k < rest.len() && rest[k] == (d, n);
                        assert(at[k + 1] == (d, n));
                    }
                }
                at
            },
            None => {
                assert forall|d: int, n: int|
                    from <= d < directories && #[trigger] is_preferred(
                        answers,
                        d,
                        n,
                        names,
                    ) implies rest.contains((d, n)) by {}
                rest
            },
        }
    }
}

/// The files that a scan finds stand in the order of the directories; of each
/// directory it is the file whose name is the earliest, and no directory that
/// holds one is passed over.
pub proof fn lemma_each_directory_gives_its_file(
    directories: Seq<Seq<char>>,
    names: Seq<Seq<char>>,
    answers: Answers,
)
    requires
        names.len() > 0,
        forall|d: int, n: int|
            0 <= d < directories.len() && 0 <= n < names.len() ==> #[trigger] (answers.kind)(d, n)
                != PathKind::Failed,
    ensures
        exists|at: Seq<(int, int)>| #[trigger]
            are_preferred(
                scanned(ScanView::new(directories, names), answers).found,
                at,
                answers,
                0,
                directories.len() as int,
                names.len() as int,
            ),
{
    lemma_scan_finds_preferred(directories, names, answers);
    let at = lemma_files_places(answers, 0, directories.len() as int, names.len() as int);
}

/// Files are taken up in the order in which they were found, the loader starts
/// on each of them anew, and the paths that the task is about come after them.
pub proof fn lemma_files_are_read_in_order(view: ReaderView)
    requires
        view.files.len() > 0,
    ensures
        view.reads_file(),
        !view.looks_at_focus(),
        view.file_started().files == view.files.skip(1),
        view.file_started().focus == view.focus,
        view.file_started().root == view.root,
        view.file_started().loader.pending.len() == 1,
        view.file_started().loader.pending[0].path == view.files[0],
        view.file_started().loader.pending[0].import_depth == 0,
        view.file_started().loader.entries == view.loader.entries,
        view.file_started().loader.visited == view.loader.visited,
        view.file_started().loader.remaining == view.loader.remaining,
{
}

/// Paths that the task is about are looked at in order, once no file is left
/// and as long as the budget is not spent. Their files are read where they
/// belong to the same project, and only there.
pub proof fn lemma_focus_is_looked_at(
    view: ReaderView,
    focus_root: Seq<char>,
    files: Seq<Seq<char>>,
)
    requires
        view.files.len() == 0,
    ensures
        !view.reads_file(),
        view.looks_at_focus() <==> view.focus.len() > 0 && view.loader.remaining > 0,
        view.focus_taken().focus == view.focus.skip(1),
        view.focus_taken().loader == view.loader,
        view.focus_taken().files == view.files,
        view.focus_taken().root == view.root,
        focus_root == view.root ==> view.focus_found(focus_root, files) == (ReaderView {
            files,
            ..view
        }),
        focus_root != view.root ==> view.focus_found(focus_root, files) == view,
{
}

} // verus!
