//! The order in which the AGENTS.md files of an environment are read.
//!
//! The project root is looked for first, upwards from the working directory.
//! The files from the root down to the working directory come next, and then
//! those on the way to each path that the task is about. Whoever drives this
//! asks the file system.

use vstd::prelude::*;

use crate::agents_md::{LoadedAgentsMd, LoadedView, WorkingDirectory};
use crate::md_loader::{AgentsMdLoader, LoaderView, PathKind};
use crate::text::{opt_text, owned, str_eq, texts};

verus! {

/// Looks for the nearest directory that holds a marker.
pub struct RootScan {
    ancestors: Vec<String>,
    markers: Vec<String>,
    directory: usize,
    marker: usize,
    root: Option<String>,
}

/// The view of a [`RootScan`].
pub struct RootScanView {
    /// A directory followed by its ancestors.
    pub ancestors: Seq<Seq<char>>,
    pub markers: Seq<Seq<char>>,
    /// The directory and the marker that are asked for next.
    pub directory: int,
    pub marker: int,
    pub root: Option<Seq<char>>,
}

impl View for RootScan {
    type V = RootScanView;

    closed spec fn view(&self) -> RootScanView {
        RootScanView {
            ancestors: texts(self.ancestors@),
            markers: texts(self.markers@),
            directory: self.directory as int,
            marker: self.marker as int,
            root: opt_text(self.root),
        }
    }
}

impl RootScanView {
    /// Before anything was asked for.
    pub open spec fn new(ancestors: Seq<Seq<char>>, markers: Seq<Seq<char>>) -> RootScanView {
        RootScanView { ancestors, markers, directory: 0, marker: 0, root: None }
    }

    /// What holds of every scan.
    pub open spec fn wf(self) -> bool {
        &&& 0 <= self.directory <= self.ancestors.len()
        &&& 0 <= self.marker <= self.markers.len()
        &&& self.markers.len() > 0 ==> self.marker < self.markers.len()
    }

    /// Whether there is nothing more to ask for: the root was found, or there
    /// is none. Without markers there is none.
    pub open spec fn is_done(self) -> bool {
        self.root is Some || self.markers.len() == 0 || self.directory >= self.ancestors.len()
    }

    /// Takes what is known of the path that was asked for.
    pub open spec fn probed(self, kind: PathKind) -> RootScanView {
        match kind {
            PathKind::Failed => self,
            PathKind::NotFound => if self.marker + 1 < self.markers.len() {
                RootScanView { marker: self.marker + 1, ..self }
            } else {
                RootScanView { directory: self.directory + 1, marker: 0, ..self }
            },
            _ => RootScanView { root: Some(self.ancestors[self.directory]), ..self },
        }
    }
}

impl RootScan {
    /// A scan of a directory and its ancestors for markers.
    pub fn new(ancestors: Vec<String>, markers: Vec<String>) -> (r: Self)
        ensures
            r@ == RootScanView::new(texts(ancestors@), texts(markers@)),
            r@.wf(),
    {
        RootScan { ancestors, markers, directory: 0, marker: 0, root: None }
    }

    /// The directory and the marker to ask for next.
    pub fn next_probe(&self) -> (r: Option<(String, String)>)
        requires
            self@.wf(),
        ensures
            match r {
                Some(probe) => !self@.is_done() && probe.0@ == self@.ancestors[self@.directory]
                    && probe.1@ == self@.markers[self@.marker],
                None => self@.is_done(),
            },
    {
        if self.root.is_some() || self.markers.len() == 0 || self.directory
            >= self.ancestors.len() {
            None
        } else {
            Some(
                (
                    owned(self.ancestors[self.directory].as_str()),
                    owned(self.markers[self.marker].as_str()),
                ),
            )
        }
    }

    /// Takes what is known of the path that was asked for. Where the file
    /// system could not tell, the scan fails, and this says so.
    pub fn on_probe(&mut self, kind: PathKind) -> (r: bool)
        requires
            old(self)@.wf(),
            !old(self)@.is_done(),
        ensures
            r == (kind != PathKind::Failed),
            final(self)@ == old(self)@.probed(kind),
            final(self)@.wf(),
    {
        let markers = self.markers.len();
        assert(self.directory < self.ancestors.len() && self.marker < markers);
        match kind {
            PathKind::Failed => false,
            PathKind::NotFound => {
                if self.marker + 1 < markers {
                    self.marker = self.marker + 1;
                } else {
                    self.directory = self.directory + 1;
                    self.marker = 0;
                }
                true
            },
            _ => {
                self.root = Some(owned(self.ancestors[self.directory].as_str()));
                true
            },
        }
    }

    /// The nearest directory that holds a marker.
    pub fn into_root(self) -> (r: Option<String>)
        ensures
            opt_text(r) == self@.root,
    {
        self.root
    }
}

/// Whether a directory holds one of the markers from one on. `kinds` is what is
/// known of the path of each marker in each directory.
pub open spec fn holds_marker(
    kinds: spec_fn(int, int) -> PathKind,
    directory: int,
    from: int,
    markers: int,
) -> bool
    decreases markers - from,
{
    from < markers && (kinds(directory, from) != PathKind::NotFound || holds_marker(
        kinds,
        directory,
        from + 1,
        markers,
    ))
}

/// The first directory from one on that holds a marker.
pub open spec fn nearest_root(
    ancestors: Seq<Seq<char>>,
    kinds: spec_fn(int, int) -> PathKind,
    directory: int,
    markers: int,
) -> Option<Seq<char>>
    decreases ancestors.len() - directory,
{
    if directory >= ancestors.len() {
        None
    } else if holds_marker(kinds, directory, 0, markers) {
        Some(ancestors[directory])
    } else {
        nearest_root(ancestors, kinds, directory + 1, markers)
    }
}

/// The end of a scan that gets all its answers.
pub open spec fn root_scanned(
    scan: RootScanView,
    kinds: spec_fn(int, int) -> PathKind,
) -> RootScanView
    decreases
            if scan.root is Some {
                0int
            } else {
                1int
            },
            scan.ancestors.len() - scan.directory,
            scan.markers.len() - scan.marker,
    when scan.wf()
{
    let kind = kinds(scan.directory, scan.marker);
    if scan.is_done() || kind == PathKind::Failed {
        scan
    } else {
        root_scanned(scan.probed(kind), kinds)
    }
}

proof fn lemma_root_scanned(scan: RootScanView, kinds: spec_fn(int, int) -> PathKind)
    requires
        scan.wf(),
        scan.root is None,
        scan.markers.len() > 0,
        forall|d: int, m: int|
            0 <= d < scan.ancestors.len() && 0 <= m < scan.markers.len() ==> #[trigger] kinds(d, m)
                != PathKind::Failed,
    ensures
        scan.is_done() ==> root_scanned(scan, kinds).root is None,
        !scan.is_done() ==> root_scanned(scan, kinds).root == if holds_marker(
            kinds,
            scan.directory,
            scan.marker,
            scan.markers.len() as int,
        ) {
            Some(scan.ancestors[scan.directory])
        } else {
            nearest_root(
                scan.ancestors,
                kinds,
                scan.directory + 1,
                scan.markers.len() as int,
            )
        },
    decreases scan.ancestors.len() - scan.directory, scan.markers.len() - scan.marker,
{
    if !scan.is_done() {
        let kind = kinds(scan.directory, scan.marker);
        let next = scan.probed(kind);
        if kind == PathKind::NotFound {
            lemma_root_scanned(next, kinds);
            if scan.marker + 1 >= scan.markers.len() {
                assert(!holds_marker(
                    kinds,
                    scan.directory,
                    scan.marker + 1,
                    scan.markers.len() as int,
                ));
            }
        } else {
            assert(root_scanned(next, kinds) == next);
        }
    }
}

/// The project root is the nearest directory on the way up that holds one of
/// the markers; without markers there is none.
pub proof fn lemma_root_is_nearest(
    ancestors: Seq<Seq<char>>,
    markers: Seq<Seq<char>>,
    kinds: spec_fn(int, int) -> PathKind,
)
    requires
        forall|d: int, m: int|
            0 <= d < ancestors.len() && 0 <= m < markers.len() ==> #[trigger] kinds(d, m)
                != PathKind::Failed,
    ensures
        root_scanned(RootScanView::new(ancestors, markers), kinds).root == if markers.len() == 0 {
            None
        } else {
            nearest_root(ancestors, kinds, 0, markers.len() as int)
        },
{
    let start = RootScanView::new(ancestors, markers);
    if markers.len() > 0 {
        lemma_root_scanned(start, kinds);
    }
}

/// What is done next.
pub enum ReadStep {
    /// The loader was started on this file; it is read with its imports.
    File(String),
    /// This path that the task is about is looked at.
    Focus(String),
    /// Everything was read.
    Done,
}

/// Reads the files of one environment in order.
pub struct AgentsMdReader {
    pub loader: AgentsMdLoader,
    root: String,
    files: Vec<String>,
    focus: Vec<String>,
}

/// The view of an [`AgentsMdReader`].
pub struct ReaderView {
    pub loader: LoaderView,
    /// The project root.
    pub root: Seq<char>,
    /// The files that were found and not read yet, in order.
    pub files: Seq<Seq<char>>,
    /// The paths that the task is about and that were not looked at yet, in
    /// order.
    pub focus: Seq<Seq<char>>,
}

impl View for AgentsMdReader {
    type V = ReaderView;

    closed spec fn view(&self) -> ReaderView {
        ReaderView {
            loader: self.loader@,
            root: self.root@,
            files: texts(self.files@),
            focus: texts(self.focus@),
        }
    }
}

impl ReaderView {
    /// Whether one of the files that were found is read next.
    pub open spec fn reads_file(self) -> bool {
        self.files.len() > 0
    }

    /// Whether a path that the task is about is looked at next: all files that
    /// were found are read, and the budget has room left.
    pub open spec fn looks_at_focus(self) -> bool {
        self.files.len() == 0 && self.focus.len() > 0 && self.loader.remaining > 0
    }

    /// The first of the files is taken up.
    pub open spec fn file_started(self) -> ReaderView {
        ReaderView {
            loader: self.loader.started(self.files[0]),
            files: self.files.skip(1),
            ..self
        }
    }

    /// The first of the paths is looked at.
    pub open spec fn focus_taken(self) -> ReaderView {
        ReaderView { focus: self.focus.skip(1), ..self }
    }

    /// The files on the way to a path that the task is about were found; those
    /// of another project are not read.
    pub open spec fn focus_found(self, focus_root: Seq<char>, files: Seq<Seq<char>>) -> ReaderView {
        if focus_root == self.root {
            ReaderView { files, ..self }
        } else {
            self
        }
    }
}

fn take_first(values: &mut Vec<String>) -> (r: String)
    requires
        old(values)@.len() > 0,
    ensures
        r@ == texts(old(values)@)[0],
        texts(final(values)@) == texts(old(values)@).skip(1),
{
    let first = values.remove(0);
    assert(texts(values@) =~= texts(old(values)@).skip(1));
    first
}

impl AgentsMdReader {
    /// A reader for the files of an environment; none where the budget has no
    /// room at all, so that nothing is looked for.
    pub fn new(
        environment_id: &str,
        cwd: &WorkingDirectory,
        max_bytes: u64,
        focus: Vec<String>,
    ) -> (r: Option<Self>)
        ensures
            r is None <==> max_bytes == 0,
            r matches Some(reader) ==> reader@ == (ReaderView {
                loader: LoaderView::new(environment_id@, cwd@, max_bytes),
                root: Seq::empty(),
                files: Seq::empty(),
                focus: texts(focus@),
            }) && reader@.loader.wf(),
    {
        if max_bytes == 0 {
            return None;
        }
        let r = AgentsMdReader {
            loader: AgentsMdLoader::new(environment_id, cwd, max_bytes),
            root: String::new(),
            files: Vec::new(),
            focus,
        };
        assert(r@.root =~= Seq::empty());
        assert(r@.files =~= Seq::empty());
        Some(r)
    }

    /// Takes the project root, and the files from there down to the working
    /// directory.
    pub fn on_discovery(&mut self, root: String, files: Vec<String>)
        ensures
            final(self)@ == (ReaderView { root: root@, files: texts(files@), ..old(self)@ }),
    {
        self.root = root;
        self.files = files;
    }

    /// What is done next: the files that were found are read in order, then
    /// the paths that the task is about are looked at one by one, as long as
    /// the budget has room.
    pub fn next_step(&mut self) -> (r: ReadStep)
        requires
            old(self)@.loader.wf(),
        ensures
            final(self)@.loader.wf(),
            match r {
                ReadStep::File(path) => old(self)@.reads_file() && path@ == old(self)@.files[0]
                    && final(self)@ == old(self)@.file_started(),
                ReadStep::Focus(path) => old(self)@.looks_at_focus() && path@ == old(self)@.focus[0]
                    && final(self)@ == old(self)@.focus_taken(),
                ReadStep::Done => !old(self)@.reads_file() && !old(self)@.looks_at_focus()
                    && final(self)@ == old(self)@,
            },
    {
        assert(texts(self.files@).len() == self.files.len());
        assert(texts(self.focus@).len() == self.focus.len());
        if self.files.len() > 0 {
            let path = take_first(&mut self.files);
            self.loader.start(path.as_str());
            return ReadStep::File(path);
        }
        if self.focus.len() > 0 && self.loader.has_budget() {
            return ReadStep::Focus(take_first(&mut self.focus));
        }
        ReadStep::Done
    }

    /// The directory in which files are looked for on account of a path that
    /// the task is about; none where the path gives none, and none where it
    /// lies outside the project root.
    pub fn focus_directory(directory: Option<String>, below_root: bool) -> (r: Option<String>)
        ensures
            r == if below_root {
                directory
            } else {
                None
            },
    {
        if below_root {
            directory
        } else {
            None
        }
    }

    /// Takes the project root of such a directory, and the files from there
    /// down to it.
    pub fn on_focus_discovery(&mut self, focus_root: &str, files: Vec<String>)
        ensures
            final(self)@ == old(self)@.focus_found(focus_root@, texts(files@)),
    {
        if str_eq(self.root.as_str(), focus_root) {
            self.files = files;
        }
    }

    /// What was loaded, if anything.
    pub fn finish(self) -> (r: Option<LoadedAgentsMd>)
        ensures
            match r {
                Some(loaded) => loaded@ == (LoadedView {
                    user_instructions: None,
                    entries: self@.loader.entries,
                }) && !loaded@.is_empty(),
                None => (LoadedView {
                    user_instructions: None,
                    entries: self@.loader.entries,
                }).is_empty(),
            },
    {
        self.loader.finish()
    }
}

} // verus!
