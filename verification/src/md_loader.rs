//! Reading of AGENTS.md files with their imports, under one byte budget.
//!
//! The loader decides which path is read next and what becomes of what was
//! read; whoever drives it asks the file system and resolves paths.

use vstd::prelude::*;

use crate::agents_md::{
    entry_sources, entry_views, CwdView, EntryView, InstructionEntry, InstructionProvenance, LoadedAgentsMd,
    LoadedView, ProvenanceView, WorkingDirectory,
};
use crate::md_imports::{extract_agents_md_imports, imports_of};
use crate::text::{blank, contains_text, is_blank, lemma_texts_push, owned, texts};
use crate::utf8_stream::{from_utf8_lossy, lossy_text};

verus! {

/// How far imports are followed.
pub const AGENTS_MD_IMPORT_MAX_DEPTH: usize = 4;

/// What the file system says of a path.
#[derive(Clone, Copy, Debug, PartialEq, Eq, Structural)]
pub enum PathKind {
    File,
    Directory,
    /// Something else that exists.
    Other,
    NotFound,
    /// The file system could not tell.
    Failed,
}

/// What became of the path of an import.
pub enum ImportTarget {
    /// The text is no path.
    Invalid,
    /// A path, below the root of the import or not.
    Path { path: String, below_root: bool },
}

/// The view of an [`ImportTarget`].
pub enum TargetView {
    Invalid,
    Path { path: Seq<char>, below_root: bool },
}

impl View for ImportTarget {
    type V = TargetView;

    open spec fn view(&self) -> TargetView {
        match *self {
            ImportTarget::Invalid => TargetView::Invalid,
            ImportTarget::Path { path, below_root } => TargetView::Path { path: path@, below_root },
        }
    }
}

/// The views of targets.
pub open spec fn target_views(targets: Seq<ImportTarget>) -> Seq<TargetView> {
    Seq::new(targets.len(), |i: int| targets[i]@)
}

/// A path that is to be read, and how many imports led to it.
pub struct PendingAgentsMdPath {
    pub path: String,
    pub import_depth: usize,
}

/// The view of a [`PendingAgentsMdPath`].
pub struct PendingView {
    pub path: Seq<char>,
    pub import_depth: nat,
}

impl View for PendingAgentsMdPath {
    type V = PendingView;

    open spec fn view(&self) -> PendingView {
        PendingView { path: self.path@, import_depth: self.import_depth as nat }
    }
}

/// The views of paths that are to be read.
pub open spec fn pending_views(pending: Seq<PendingAgentsMdPath>) -> Seq<PendingView> {
    Seq::new(pending.len(), |i: int| pending[i]@)
}

/// The view of a path that may be missing.
pub open spec fn pending_view(pending: Option<PendingAgentsMdPath>) -> Option<PendingView> {
    match pending {
        Some(pending) => Some(pending@),
        None => None,
    }
}

/// Reads the files of one environment.
pub struct AgentsMdLoader {
    environment_id: String,
    cwd: WorkingDirectory,
    remaining: u64,
    visited: Vec<String>,
    entries: Vec<InstructionEntry>,
    /// What is to be read, the next path last.
    pending: Vec<PendingAgentsMdPath>,
    /// The path that is being read.
    reading: Option<PendingAgentsMdPath>,
    /// The path whose imports are being resolved.
    importing: Option<PendingAgentsMdPath>,
}

/// The view of an [`AgentsMdLoader`].
pub struct LoaderView {
    pub environment_id: Seq<char>,
    pub cwd: CwdView,
    pub remaining: u64,
    pub visited: Seq<Seq<char>>,
    pub entries: Seq<EntryView>,
    pub pending: Seq<PendingView>,
    pub reading: Option<PendingView>,
    pub importing: Option<PendingView>,
}

impl View for AgentsMdLoader {
    type V = LoaderView;

    closed spec fn view(&self) -> LoaderView {
        LoaderView {
            environment_id: self.environment_id@,
            cwd: self.cwd@,
            remaining: self.remaining,
            visited: texts(self.visited@),
            entries: entry_views(self.entries@),
            pending: pending_views(self.pending@),
            reading: pending_view(self.reading),
            importing: pending_view(self.importing),
        }
    }
}

/// How many of the bytes of a file the budget has room for.
pub open spec fn taken(remaining: u64, len: nat) -> nat {
    if len <= remaining {
        len
    } else {
        remaining as nat
    }
}

/// The paths that imports lead to, as far as they are below the root.
pub open spec fn accepted(targets: Seq<TargetView>) -> Seq<Seq<char>>
    decreases targets.len(),
{
    if targets.len() == 0 {
        Seq::empty()
    } else {
        let before = accepted(targets.drop_last());
        match targets.last() {
            TargetView::Path { path, below_root } => if below_root {
                before.push(path)
            } else {
                before
            },
            TargetView::Invalid => before,
        }
    }
}

/// Paths at a depth, the first of them last, so that it is read first.
pub open spec fn stacked(paths: Seq<Seq<char>>, import_depth: nat) -> Seq<PendingView> {
    Seq::new(
        paths.len(),
        |i: int| PendingView { path: paths[paths.len() - 1 - i], import_depth },
    )
}

impl LoaderView {
    /// A loader that has read nothing.
    pub open spec fn new(environment_id: Seq<char>, cwd: CwdView, max_bytes: u64) -> LoaderView {
        LoaderView {
            environment_id,
            cwd,
            remaining: max_bytes,
            visited: Seq::empty(),
            entries: Seq::empty(),
            pending: Seq::empty(),
            reading: None,
            importing: None,
        }
    }

    /// Takes up a file that was found.
    pub open spec fn started(self, path: Seq<char>) -> LoaderView {
        LoaderView { pending: seq![PendingView { path, import_depth: 0 }], ..self }
    }

    /// Goes on to the next path that was not read yet. Once the budget is
    /// spent, there is none.
    pub open spec fn advanced(self) -> LoaderView
        decreases self.pending.len(),
    {
        if self.remaining == 0 || self.pending.len() == 0 {
            LoaderView { pending: Seq::empty(), reading: None, ..self }
        } else {
            let next = self.pending.last();
            let rest = LoaderView { pending: self.pending.drop_last(), ..self };
            if self.visited.contains(next.path) {
                rest.advanced()
            } else {
                LoaderView { visited: self.visited.push(next.path), reading: Some(next), ..rest }
            }
        }
    }

    /// The path that is being read holds nothing.
    pub open spec fn skipped(self) -> LoaderView {
        LoaderView { reading: None, ..self }
    }

    /// The text of a file, as far as the budget has room for it.
    pub open spec fn text_of(self, data: Seq<u8>) -> Seq<char> {
        lossy_text(data.take(taken(self.remaining, data.len()) as int))
    }

    /// What a file at a path becomes.
    pub open spec fn entry_of(self, path: Seq<char>, contents: Seq<char>) -> EntryView {
        EntryView {
            contents,
            provenance: ProvenanceView::Project {
                source_path: path,
                environment_id: self.environment_id,
                cwd: self.cwd,
            },
        }
    }

    /// Takes the bytes of the path that is being read.
    pub open spec fn filled(self, data: Seq<u8>) -> LoaderView {
        let text = self.text_of(data);
        let left = LoaderView {
            remaining: (self.remaining - taken(self.remaining, data.len())) as u64,
            reading: None,
            ..self
        };
        if is_blank(text) {
            left
        } else {
            LoaderView {
                entries: self.entries.push(self.entry_of(self.reading->0.path, text)),
                importing: if self.imports(data).len() > 0 {
                    self.reading
                } else {
                    None
                },
                ..left
            }
        }
    }

    /// The imports to resolve once the bytes of the path that is being read
    /// are there.
    pub open spec fn imports(self, data: Seq<u8>) -> Seq<Seq<char>> {
        let text = self.text_of(data);
        if is_blank(text) || self.reading->0.import_depth >= AGENTS_MD_IMPORT_MAX_DEPTH {
            Seq::empty()
        } else {
            imports_of(text)
        }
    }

    /// Takes the paths that the imports lead to.
    pub open spec fn imported(self, targets: Seq<TargetView>) -> LoaderView {
        LoaderView {
            pending: self.pending + stacked(
                accepted(targets),
                self.importing->0.import_depth + 1,
            ),
            importing: None,
            ..self
        }
    }

    /// What holds of every loader: no path is read twice, every entry is the
    /// text of a path that was read, and no import is followed too far.
    pub open spec fn wf(self) -> bool {
        &&& self.visited.no_duplicates()
        &&& forall|i: int|
            0 <= i < self.entries.len() ==> self.is_read(#[trigger] self.entries[i])
        &&& forall|i: int, j: int|
            #![trigger self.entries[i], self.entries[j]]
            0 <= i < j < self.entries.len() ==> source(self.entries[i]) != source(self.entries[j])
        &&& forall|i: int|
            0 <= i < self.pending.len() ==> (#[trigger] self.pending[i]).import_depth
                <= AGENTS_MD_IMPORT_MAX_DEPTH
        &&& match self.reading {
            Some(reading) => {
                &&& reading.import_depth <= AGENTS_MD_IMPORT_MAX_DEPTH
                &&& self.visited.contains(reading.path)
                &&& forall|i: int|
                    0 <= i < self.entries.len() ==> source(#[trigger] self.entries[i])
                        != reading.path
            },
            None => true,
        }
        &&& match self.importing {
            Some(importing) => importing.import_depth < AGENTS_MD_IMPORT_MAX_DEPTH,
            None => true,
        }
        &&& !(self.reading is Some && self.importing is Some)
    }

    /// Whether an entry is the text of a path that was read.
    pub open spec fn is_read(self, entry: EntryView) -> bool {
        &&& !is_blank(entry.contents)
        &&& self.visited.contains(source(entry))
        &&& entry == self.entry_of(source(entry), entry.contents)
    }
}

/// The path of the file that an entry comes from.
pub open spec fn source(entry: EntryView) -> Seq<char> {
    match entry.provenance {
        ProvenanceView::Project { source_path, .. } => source_path,
        ProvenanceView::Internal => Seq::empty(),
    }
}

/// The directory that the imports of a file start from: the one that the file
/// lies in, or the root of the import where there is none.
pub fn import_base(source_parent: Option<String>, import_root: &str) -> (r: String)
    ensures
        r@ == match source_parent {
            Some(parent) => parent@,
            None => import_root@,
        },
{
    match source_parent {
        Some(parent) => parent,
        None => owned(import_root),
    }
}

fn clone_cwd(cwd: &WorkingDirectory) -> (r: WorkingDirectory)
    ensures
        r@ == cwd@,
{
    WorkingDirectory { path: owned(cwd.path.as_str()), native: owned(cwd.native.as_str()) }
}

impl AgentsMdLoader {
    /// A loader for the files of an environment.
    pub fn new(environment_id: &str, cwd: &WorkingDirectory, max_bytes: u64) -> (r: Self)
        ensures
            r@ == LoaderView::new(environment_id@, cwd@, max_bytes),
            r@.wf(),
    {
        let r = AgentsMdLoader {
            environment_id: owned(environment_id),
            cwd: clone_cwd(cwd),
            remaining: max_bytes,
            visited: Vec::new(),
            entries: Vec::new(),
            pending: Vec::new(),
            reading: None,
            importing: None,
        };
        assert(texts(r.visited@) =~= Seq::empty());
        assert(entry_views(r.entries@) =~= Seq::empty());
        assert(pending_views(r.pending@) =~= Seq::empty());
        r
    }

    /// Whether the budget has room left.
    pub fn has_budget(&self) -> (r: bool)
        ensures
            r == (self@.remaining > 0),
    {
        self.remaining > 0
    }

    /// Takes up a file that was found.
    pub fn start(&mut self, path: &str)
        requires
            old(self)@.wf(),
        ensures
            final(self)@ == old(self)@.started(path@),
            final(self)@.wf(),
    {
        let next = PendingAgentsMdPath { path: owned(path), import_depth: 0 };
        let mut pending: Vec<PendingAgentsMdPath> = Vec::new();
        pending.push(next);
        self.pending = pending;
        assert(pending_views(self.pending@) =~= seq![
            PendingView { path: path@, import_depth: 0 },
        ]);
        assert(self@ == old(self)@.started(path@));
    }

    /// The next path to read, if any.
    pub fn next_path(&mut self) -> (r: Option<String>)
        requires
            old(self)@.wf(),
            old(self)@.reading is None,
            old(self)@.importing is None,
        ensures
            final(self)@ == old(self)@.advanced(),
            final(self)@.wf(),
            match r {
                Some(path) => final(self)@.reading matches Some(reading) && reading.path == path@,
                None => final(self)@.reading is None,
            },
    {
        let ghost goal = self@.advanced();
        while self.remaining > 0 && self.pending.len() > 0
            invariant
                goal == old(self)@.advanced(),
                self@.wf(),
                self@.reading is None,
                self@.importing is None,
                self@.advanced() == goal,
            decreases self.pending@.len(),
        {
            let ghost view = self@;
            assert(view.pending.len() > 0);
            match self.pending.pop() {
                Some(next) => {
                    assert(pending_views(self.pending@) =~= view.pending.drop_last());
                    assert(next@ == view.pending.last());
                    if !contains_text(&self.visited, next.path.as_str()) {
                        let path = owned(next.path.as_str());
                        let result = owned(next.path.as_str());
                        proof {
                            lemma_texts_push(self.visited@, path);
                            assert forall|i: int| 0 <= i < view.entries.len() implies source(
                                #[trigger] view.entries[i],
                            ) != next.path@ by {
                                assert(view.is_read(view.entries[i]));
                            }
                            lemma_visited(view, next@);
                        }
                        self.visited.push(path);
                        self.reading = Some(next);
                        assert(self@ == view.advanced());
                        return Some(result);
                    }
                    assert(self@ == (LoaderView { pending: view.pending.drop_last(), ..view }));
                },
                None => {},
            }
        }
        let ghost view = self@;
        self.pending = Vec::new();
        assert(pending_views(self.pending@) =~= Seq::empty());
        assert(self@ == view.advanced());
        None
    }

    /// The path that is being read is no file.
    pub fn skip(&mut self)
        requires
            old(self)@.wf(),
        ensures
            final(self)@ == old(self)@.skipped(),
            final(self)@.wf(),
    {
        self.reading = None;
    }

    /// Takes the bytes of the path that is being read, and gives the imports to
    /// resolve. Where there are any, what they lead to is awaited.
    pub fn on_contents(&mut self, data: &[u8]) -> (r: Vec<String>)
        requires
            old(self)@.wf(),
            old(self)@.reading is Some,
        ensures
            final(self)@ == old(self)@.filled(data@),
            texts(r@) == old(self)@.imports(data@),
            final(self)@.importing is Some == (r@.len() > 0),
            final(self)@.wf(),
    {
        let ghost view = self@;
        let len = data.len();
        let room: usize = if (len as u64) <= self.remaining {
            len
        } else {
            self.remaining as usize
        };
        let kept = vstd::slice::slice_subrange(data, 0, room);
        assert(kept@ =~= data@.take(taken(view.remaining, data@.len()) as int));
        self.remaining = self.remaining - room as u64;
        let text = from_utf8_lossy(kept);
        let mut reading: Option<PendingAgentsMdPath> = None;
        std::mem::swap(&mut reading, &mut self.reading);
        let none: Vec<String> = Vec::new();
        assert(texts(none@) =~= Seq::empty());
        if blank(text.as_str()) {
            assert(self@ == view.filled(data@));
            return none;
        }
        match reading {
            Some(reading) => {
                let imports = if reading.import_depth < AGENTS_MD_IMPORT_MAX_DEPTH {
                    extract_agents_md_imports(text.as_str())
                } else {
                    none
                };
                let ghost entries = self.entries@;
                let entry = InstructionEntry {
                    contents: text,
                    provenance: InstructionProvenance::Project {
                        source_path: owned(reading.path.as_str()),
                        environment_id: owned(self.environment_id.as_str()),
                        cwd: clone_cwd(&self.cwd),
                    },
                };
                let ghost added = entry@;
                self.entries.push(entry);
                assert(entry_views(self.entries@) =~= entry_views(entries).push(added));
                assert(texts(imports@).len() == imports@.len());
                if imports.len() > 0 {
                    self.importing = Some(reading);
                }
                proof {
                    assert(self@ == view.filled(data@));
                    lemma_filled(view, data@);
                }
                imports
            },
            None => none,
        }
    }

    /// Takes the paths that the imports lead to.
    pub fn on_imports(&mut self, targets: Vec<ImportTarget>)
        requires
            old(self)@.wf(),
            old(self)@.importing is Some,
        ensures
            final(self)@ == old(self)@.imported(target_views(targets@)),
            final(self)@.wf(),
    {
        let ghost view = self@;
        let ghost all = target_views(targets@);
        let mut importing: Option<PendingAgentsMdPath> = None;
        std::mem::swap(&mut importing, &mut self.importing);
        let depth: usize = match &importing {
            Some(importing) => importing.import_depth,
            None => 0,
        };
        let ghost start = pending_views(self.pending@);
        let mut i: usize = targets.len();
        assert(all.take(i as int) =~= all);
        let mut pushed: Ghost<Seq<PendingView>> = Ghost(Seq::empty());
        while i > 0
            invariant
                i <= targets@.len(),
                all == target_views(targets@),
                depth < AGENTS_MD_IMPORT_MAX_DEPTH,
                pending_views(self.pending@) == start + pushed@,
                stacked(accepted(all), (depth + 1) as nat) == pushed@ + stacked(
                    accepted(all.take(i as int)),
                    (depth + 1) as nat,
                ),
                self@ == (LoaderView { pending: start + pushed@, importing: None, ..view }),
            decreases i,
        {
            let ghost prefix = all.take(i as int);
            let ghost rest = all.take(i - 1);
            assert(prefix.drop_last() =~= rest);
            assert(prefix.last() == targets@[i - 1]@);
            match &targets[i - 1] {
                ImportTarget::Path { path, below_root } => {
                    if *below_root {
                        let next = PendingAgentsMdPath {
                            path: owned(path.as_str()),
                            import_depth: depth + 1,
                        };
                        let ghost earlier = self.pending@;
                        let ghost done = pushed@;
                        self.pending.push(next);
                        proof {
                            pushed@ = done.push(next@);
                            assert(pending_views(self.pending@) =~= pending_views(earlier).push(
                                next@,
                            ));
                            assert(pending_views(self.pending@) =~= start + pushed@);
                            assert(accepted(prefix) == accepted(rest).push(path@));
                            assert(stacked(accepted(prefix), (depth + 1) as nat) =~= seq![next@]
                                + stacked(accepted(rest), (depth + 1) as nat));
                            assert(done + (seq![next@] + stacked(
                                accepted(rest),
                                (depth + 1) as nat,
                            )) =~= pushed@ + stacked(accepted(rest), (depth + 1) as nat));
                        }
                    }
                },
                ImportTarget::Invalid => {},
            }
            i -= 1;
        }
        proof {
            assert(all.take(0) =~= Seq::empty());
            assert(pushed@ + stacked(accepted(all.take(0)), (depth + 1) as nat) =~= pushed@);
            assert(self@ == view.imported(all));
            lemma_imported(view, all);
        }
    }

    /// What was loaded, if anything.
    pub fn finish(self) -> (r: Option<LoadedAgentsMd>)
        ensures
            match r {
                Some(loaded) => loaded@ == (LoadedView {
                    user_instructions: None,
                    entries: self@.entries,
                }) && !loaded@.is_empty(),
                None => (LoadedView { user_instructions: None, entries: self@.entries }).is_empty(),
            },
    {
        let loaded = LoadedAgentsMd { user_instructions: None, entries: self.entries };
        if loaded.is_empty() {
            None
        } else {
            Some(loaded)
        }
    }
}

proof fn lemma_visited(view: LoaderView, next: PendingView)
    requires
        view.wf(),
        view.pending.len() > 0,
        next == view.pending.last(),
        !view.visited.contains(next.path),
        view.importing is None,
        forall|i: int|
            0 <= i < view.entries.len() ==> source(#[trigger] view.entries[i]) != next.path,
    ensures
        (LoaderView {
            visited: view.visited.push(next.path),
            reading: Some(next),
            pending: view.pending.drop_last(),
            ..view
        }).wf(),
{
    let after = LoaderView {
        visited: view.visited.push(next.path),
        reading: Some(next),
        pending: view.pending.drop_last(),
        ..view
    };
    assert(after.visited[view.visited.len() as int] == next.path);
    assert forall|i: int, j: int|
        0 <= i < after.visited.len() && 0 <= j < after.visited.len() && i
            != j implies after.visited[i] != after.visited[j] by {
        if i < view.visited.len() && j < view.visited.len() {
            assert(view.visited[i] != view.visited[j]);
        } else if i < view.visited.len() {
            assert(view.visited.contains(view.visited[i]));
        } else {
            assert(view.visited.contains(view.visited[j]));
        }
    }
    assert forall|i: int| 0 <= i < after.entries.len() implies after.is_read(
        #[trigger] after.entries[i],
    ) by {
        let entry = view.entries[i];
        assert(view.is_read(entry));
        let k = choose|k: int| 0 <= k < view.visited.len() && view.visited[k] == source(entry);
        assert(after.visited[k] == source(entry));
        assert(after.visited.contains(source(entry)));
    }
    assert forall|i: int| 0 <= i < after.pending.len() implies (
    #[trigger] after.pending[i]).import_depth <= AGENTS_MD_IMPORT_MAX_DEPTH by {
        assert(after.pending[i] == view.pending[i]);
    }
}

proof fn lemma_filled(view: LoaderView, data: Seq<u8>)
    requires
        view.wf(),
        view.reading is Some,
    ensures
        view.filled(data).wf(),
{
    let after = view.filled(data);
    let text = view.text_of(data);
    if !is_blank(text) {
        let added = view.entry_of(view.reading->0.path, text);
        assert forall|i: int| 0 <= i < after.entries.len() implies after.is_read(
            #[trigger] after.entries[i],
        ) by {
            if i < view.entries.len() {
                assert(view.is_read(view.entries[i]));
            } else {
                assert(after.entries[i] == added);
            }
        }
        assert forall|i: int, j: int|
            #![trigger after.entries[i], after.entries[j]]
            0 <= i < j < after.entries.len() implies source(after.entries[i]) != source(
            after.entries[j],
        ) by {
            if j < view.entries.len() {
                assert(source(view.entries[i]) != source(view.entries[j]));
            } else {
                assert(source(view.entries[i]) != view.reading->0.path);
            }
        }
    }
}

proof fn lemma_imported(view: LoaderView, targets: Seq<TargetView>)
    requires
        view.wf(),
        view.importing is Some,
    ensures
        view.imported(targets).wf(),
{
    let after = view.imported(targets);
    assert forall|i: int| 0 <= i < after.pending.len() implies (
    #[trigger] after.pending[i]).import_depth <= AGENTS_MD_IMPORT_MAX_DEPTH by {
        if i < view.pending.len() {
            assert(after.pending[i] == view.pending[i]);
        }
    }
}

proof fn lemma_sources(view: LoaderView, n: int)
    requires
        view.wf(),
        0 <= n <= view.entries.len(),
    ensures
        entry_sources(view.entries.take(n)) == Seq::new(
            n as nat,
            |i: int| source(view.entries[i]),
        ),
    decreases n,
{
    let prefix = view.entries.take(n);
    if n > 0 {
        lemma_sources(view, n - 1);
        assert(prefix.drop_last() =~= view.entries.take(n - 1));
        assert(view.is_read(view.entries[n - 1]));
        assert(prefix.last() == view.entries[n - 1]);
    }
    assert(entry_sources(prefix) =~= Seq::new(n as nat, |i: int| source(view.entries[i])));
}

/// No file gives instructions twice, however often it is found or imported.
pub proof fn lemma_files_are_read_once(view: LoaderView)
    requires
        view.wf(),
    ensures
        entry_sources(view.entries).no_duplicates(),
        entry_sources(view.entries).len() == view.entries.len(),
{
    let n = view.entries.len() as int;
    lemma_sources(view, n);
    assert(view.entries.take(n) =~= view.entries);
    let sources = entry_sources(view.entries);
    assert forall|i: int, j: int|
        0 <= i < sources.len() && 0 <= j < sources.len() && i != j implies sources[i]
        != sources[j] by {
        if i < j {
            assert(source(view.entries[i]) != source(view.entries[j]));
        } else {
            assert(source(view.entries[j]) != source(view.entries[i]));
        }
    }
}

/// What a file takes is what the budget loses, and never more than it had.
/// Once nothing is left, nothing more is read.
pub proof fn lemma_budget(view: LoaderView, data: Seq<u8>)
    ensures
        view.filled(data).remaining + taken(view.remaining, data.len()) == view.remaining,
        taken(view.remaining, data.len()) <= data.len(),
        view.remaining == 0 ==> view.advanced().reading is None,
{
}

/// What a file imports is read directly after it, in the order in which it is
/// mentioned and before anything that waited already.
pub proof fn lemma_imports_come_next(view: LoaderView, targets: Seq<TargetView>)
    requires
        view.importing is Some,
    ensures
        view.imported(targets).pending.len() == view.pending.len() + accepted(targets).len(),
        forall|i: int|
            0 <= i < accepted(targets).len() ==> view.imported(targets).pending[view.imported(
                targets,
            ).pending.len() - 1 - i].path == #[trigger] accepted(targets)[i],
        forall|i: int|
            0 <= i < view.pending.len() ==> view.imported(targets).pending[i]
                == #[trigger] view.pending[i],
{
}

/// What lies outside the root is never read: every path that an import leads
/// to is one that was found to be below it.
pub proof fn lemma_imports_stay_below_root(targets: Seq<TargetView>)
    ensures
        forall|i: int|
            0 <= i < accepted(targets).len() ==> targets.contains(
                (TargetView::Path { path: #[trigger] accepted(targets)[i], below_root: true }),
            ),
    decreases targets.len(),
{
    if targets.len() > 0 {
        let before = targets.drop_last();
        lemma_imports_stay_below_root(before);
        assert forall|i: int| 0 <= i < accepted(targets).len() implies targets.contains(
            (TargetView::Path { path: #[trigger] accepted(targets)[i], below_root: true }),
        ) by {
            if i < accepted(before).len() {
                let target = TargetView::Path { path: accepted(before)[i], below_root: true };
                assert(before.contains(target));
                let k = choose|k: int| 0 <= k < before.len() && before[k] == target;
                assert(targets[k] == target);
            } else {
                assert(targets[targets.len() - 1] == targets.last());
            }
        }
    }
}

} // verus!
