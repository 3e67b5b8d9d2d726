//! Discovery of AGENTS.md files, from the project root to a directory.

use vstd::prelude::*;

use crate::agents_md::{
    entry_views, filled_user, user_view, EntryView, LoadedAgentsMd, LoadedView, UserInstructions,
    DEFAULT_AGENTS_MD_FILENAME, LOCAL_AGENTS_MD_FILENAME,
};
use crate::lists::{push_unique, with_unique};
use crate::md_loader::PathKind;
use crate::text::{lemma_texts_push, owned, str_eq, texts};

verus! {

/// A path that the task is about.
pub struct AgentsMdFocusPath {
    pub environment_id: String,
    pub path: String,
}

/// The view of an [`AgentsMdFocusPath`].
pub struct FocusView {
    pub environment_id: Seq<char>,
    pub path: Seq<char>,
}

impl View for AgentsMdFocusPath {
    type V = FocusView;

    open spec fn view(&self) -> FocusView {
        FocusView { environment_id: self.environment_id@, path: self.path@ }
    }
}

/// The views of focus paths.
pub open spec fn focus_views(paths: Seq<AgentsMdFocusPath>) -> Seq<FocusView> {
    Seq::new(paths.len(), |i: int| paths[i]@)
}

/// What the configuration says of project root markers.
pub enum MarkerSetting {
    Unset,
    Invalid,
    Markers(Vec<String>),
}

/// The markers to look for: those that are configured, and the default ones
/// where none are, or where they cannot be read.
pub fn project_root_markers(setting: MarkerSetting, default: Vec<String>) -> (r: Vec<String>)
    ensures
        r@ == match setting {
            MarkerSetting::Markers(markers) => markers@,
            _ => default@,
        },
{
    match setting {
        MarkerSetting::Markers(markers) => markers,
        MarkerSetting::Unset => default,
        MarkerSetting::Invalid => default,
    }
}

/// The names that are looked for after some of the fallback names were added.
pub open spec fn names_with(fallbacks: Seq<Seq<char>>) -> Seq<Seq<char>>
    decreases fallbacks.len(),
{
    if fallbacks.len() == 0 {
        seq![LOCAL_AGENTS_MD_FILENAME@, DEFAULT_AGENTS_MD_FILENAME@]
    } else {
        let before = names_with(fallbacks.drop_last());
        if fallbacks.last().len() == 0 {
            before
        } else {
            with_unique(before, fallbacks.last())
        }
    }
}

/// The names that are looked for in a directory, the preferred one first: the
/// local override, the default one, and the fallback names, each once.
pub fn candidate_filenames(fallbacks: &Vec<String>) -> (r: Vec<String>)
    ensures
        texts(r@) == names_with(texts(fallbacks@)),
{
    let ghost all = texts(fallbacks@);
    let mut names: Vec<String> = vec![
        owned(LOCAL_AGENTS_MD_FILENAME),
        owned(DEFAULT_AGENTS_MD_FILENAME),
    ];
    assert(texts(names@) =~= seq![LOCAL_AGENTS_MD_FILENAME@, DEFAULT_AGENTS_MD_FILENAME@]);
    let mut i: usize = 0;
    while i < fallbacks.len()
        invariant
            i <= fallbacks@.len(),
            all == texts(fallbacks@),
            texts(names@) == names_with(all.take(i as int)),
        decreases fallbacks.len() - i,
    {
        assert(all.take(i + 1).drop_last() =~= all.take(i as int));
        assert(all.take(i + 1).last() == fallbacks@[i as int]@);
        if !str_eq(fallbacks[i].as_str(), "") {
            proof {
                reveal_strlit("");
                if fallbacks@[i as int]@.len() == 0 {
                    assert(fallbacks@[i as int]@ =~= ""@);
                }
            }
            push_unique(&mut names, fallbacks[i].as_str());
        } else {
            proof {
                reveal_strlit("");
            }
        }
        i += 1;
    }
    assert(all.take(i as int) =~= all);
    names
}

/// How many of the directories on the way up are searched: up to the root.
pub open spec fn chain_len(ancestors: Seq<Seq<char>>, root: Seq<char>, from: int) -> int
    decreases ancestors.len() - from,
{
    if from >= ancestors.len() {
        ancestors.len() as int
    } else if ancestors[from] == root {
        from + 1
    } else {
        chain_len(ancestors, root, from + 1)
    }
}

/// The project root and the directories to search. `ancestors` is a directory
/// followed by its ancestors.
pub open spec fn searched(ancestors: Seq<Seq<char>>, root: Option<Seq<char>>) -> (
    Seq<char>,
    Seq<Seq<char>>,
) {
    match root {
        Some(root) => (root, ancestors.take(chain_len(ancestors, root, 0)).reverse()),
        None => (ancestors[0], seq![ancestors[0]]),
    }
}

/// Finds the project root and the directories to search, the root first.
/// `ancestors` is a directory followed by its ancestors, and `root` the nearest
/// of them that holds a marker; without one, only the directory is searched.
pub fn search_directories(ancestors: &Vec<String>, root: &Option<String>) -> (r: (
    String,
    Vec<String>,
))
    requires
        ancestors@.len() > 0,
    ensures
        (r.0@, texts(r.1@)) == searched(texts(ancestors@), crate::text::opt_text(*root)),
{
    let ghost all = texts(ancestors@);
    match root {
        Some(root) => {
            let mut len: usize = 0;
            let mut reached = false;
            while len < ancestors.len() && !reached
                invariant
                    len <= ancestors@.len(),
                    all == texts(ancestors@),
                    if reached {
                        len == chain_len(all, root@, 0)
                    } else {
                        chain_len(all, root@, len as int) == chain_len(all, root@, 0)
                    },
                decreases ancestors.len() - len,
            {
                if str_eq(ancestors[len].as_str(), root.as_str()) {
                    reached = true;
                }
                assert(all[len as int] == ancestors@[len as int]@);
                len += 1;
            }
            let ghost chain = all.take(len as int);
            let mut directories: Vec<String> = Vec::new();
            let mut i: usize = len;
            assert(texts(directories@) =~= chain.reverse().take(0));
            while i > 0
                invariant
                    i <= len <= ancestors@.len(),
                    all == texts(ancestors@),
                    chain == all.take(len as int),
                    texts(directories@) == chain.reverse().take(len - i),
                decreases i,
            {
                let directory = owned(ancestors[i - 1].as_str());
                proof {
                    lemma_texts_push(directories@, directory);
                    assert(chain.reverse()[len - i] == directory@);
                }
                directories.push(directory);
                i -= 1;
                assert(texts(directories@) =~= chain.reverse().take(len - i));
            }
            assert(chain.reverse().take(len as int) =~= chain.reverse());
            (owned(root.as_str()), directories)
        },
        None => {
            let directories: Vec<String> = vec![owned(ancestors[0].as_str())];
            assert(all[0] == ancestors@[0]@);
            assert(texts(directories@) =~= seq![all[0]]);
            (owned(ancestors[0].as_str()), directories)
        },
    }
}

proof fn lemma_chain_len(ancestors: Seq<Seq<char>>, root: Seq<char>, from: int)
    requires
        0 <= from <= ancestors.len(),
        exists|k: int| from <= k < ancestors.len() && #[trigger] ancestors[k] == root,
    ensures
        from < chain_len(ancestors, root, from) <= ancestors.len(),
        ancestors[chain_len(ancestors, root, from) - 1] == root,
        forall|i: int|
            from <= i < chain_len(ancestors, root, from) - 1 ==> #[trigger] ancestors[i] != root,
    decreases ancestors.len() - from,
{
    if ancestors[from] != root {
        let k = choose|k: int| from <= k < ancestors.len() && #[trigger] ancestors[k] == root;
        assert(from + 1 <= k && ancestors[k] == root);
        lemma_chain_len(ancestors, root, from + 1);
    }
}

/// The search goes from the project root down to the directory itself, and
/// never past the root.
pub proof fn lemma_search_stays_below_root(ancestors: Seq<Seq<char>>, root: Seq<char>)
    requires
        ancestors.contains(root),
    ensures
        searched(ancestors, Some(root)).1.len() > 0,
        searched(ancestors, Some(root)).1[0] == root,
        searched(ancestors, Some(root)).1.last() == ancestors[0],
        forall|i: int|
            0 < i < searched(ancestors, Some(root)).1.len() ==> #[trigger] searched(
                ancestors,
                Some(root),
            ).1[i] != root,
{
    let k = choose|k: int| 0 <= k < ancestors.len() && ancestors[k] == root;
    assert(0 <= k < ancestors.len() && #[trigger] ancestors[k] == root);
    lemma_chain_len(ancestors, root, 0);
    let len = chain_len(ancestors, root, 0);
    let directories = searched(ancestors, Some(root)).1;
    assert forall|i: int| 0 < i < directories.len() implies #[trigger] directories[i] != root by {
        assert(directories[i] == ancestors[len - 1 - i]);
    }
}

/// Looks through directories for the files to read.
pub struct AgentsMdScan {
    directories: Vec<String>,
    names: Vec<String>,
    directory: usize,
    name: usize,
    found: Vec<String>,
}

/// The view of an [`AgentsMdScan`].
pub struct ScanView {
    pub directories: Seq<Seq<char>>,
    pub names: Seq<Seq<char>>,
    /// The directory and the name that are asked for next.
    pub directory: int,
    pub name: int,
    pub found: Seq<Seq<char>>,
}

impl View for AgentsMdScan {
    type V = ScanView;

    closed spec fn view(&self) -> ScanView {
        ScanView {
            directories: texts(self.directories@),
            names: texts(self.names@),
            directory: self.directory as int,
            name: self.name as int,
            found: texts(self.found@),
        }
    }
}

impl ScanView {
    /// Before anything was asked for.
    pub open spec fn new(directories: Seq<Seq<char>>, names: Seq<Seq<char>>) -> ScanView {
        ScanView { directories, names, directory: 0, name: 0, found: Seq::empty() }
    }

    /// What holds of every scan.
    pub open spec fn wf(self) -> bool {
        &&& 0 <= self.directory <= self.directories.len()
        &&& 0 <= self.name < self.names.len()
    }

    /// Whether there is nothing more to ask for.
    pub open spec fn is_done(self) -> bool {
        self.directory >= self.directories.len()
    }

    /// Takes what is known of the path that was asked for. The first file in a
    /// directory is the one that counts.
    pub open spec fn probed(self, path: Seq<char>, kind: PathKind) -> ScanView {
        match kind {
            PathKind::File => ScanView {
                directory: self.directory + 1,
                name: 0,
                found: self.found.push(path),
                ..self
            },
            PathKind::Failed => self,
            _ => if self.name + 1 < self.names.len() {
                ScanView { name: self.name + 1, ..self }
            } else {
                ScanView { directory: self.directory + 1, name: 0, ..self }
            },
        }
    }
}

impl AgentsMdScan {
    /// A scan of directories for names, the preferred name first.
    pub fn new(directories: Vec<String>, names: Vec<String>) -> (r: Self)
        requires
            names@.len() > 0,
        ensures
            r@ == ScanView::new(texts(directories@), texts(names@)),
            r@.wf(),
    {
        let r = AgentsMdScan { directories, names, directory: 0, name: 0, found: Vec::new() };
        assert(texts(r.found@) =~= Seq::empty());
        r
    }

    /// The directory and the name to ask for next.
    pub fn next_probe(&self) -> (r: Option<(String, String)>)
        requires
            self@.wf(),
        ensures
            match r {
                Some(probe) => !self@.is_done() && probe.0@ == self@.directories[self@.directory]
                    && probe.1@ == self@.names[self@.name],
                None => self@.is_done(),
            },
    {
        if self.directory >= self.directories.len() {
            None
        } else {
            Some(
                (
                    owned(self.directories[self.directory].as_str()),
                    owned(self.names[self.name].as_str()),
                ),
            )
        }
    }

    /// Takes what is known of the path that was asked for. Where the file
    /// system could not tell, the scan fails, and this says so.
    pub fn on_probe(&mut self, path: &str, kind: PathKind) -> (r: bool)
        requires
            old(self)@.wf(),
            !old(self)@.is_done(),
        ensures
            r == (kind != PathKind::Failed),
            final(self)@ == old(self)@.probed(path@, kind),
            final(self)@.wf(),
    {
        let names = self.names.len();
        assert(self.directory < self.directories.len() && self.name < names);
        match kind {
            PathKind::File => {
                let path = owned(path);
                proof {
                    lemma_texts_push(self.found@, path);
                }
                self.found.push(path);
                self.directory = self.directory + 1;
                self.name = 0;
                true
            },
            PathKind::Failed => false,
            _ => {
                if self.name + 1 < names {
                    self.name = self.name + 1;
                } else {
                    self.directory = self.directory + 1;
                    self.name = 0;
                }
                true
            },
        }
    }

    /// The files that were found.
    pub fn into_found(self) -> (r: Vec<String>)
        ensures
            texts(r@) == self@.found,
    {
        self.found
    }
}

/// What is known of the path of each name in each directory.
pub struct Answers {
    pub kind: spec_fn(int, int) -> PathKind,
    pub path: spec_fn(int, int) -> Seq<char>,
}

/// The first of the names from `name` on that is a file in a directory.
pub open spec fn first_file(answers: Answers, directory: int, name: int, count: int) -> Option<int>
    decreases count - name,
{
    if name >= count {
        None
    } else if (answers.kind)(directory, name) == PathKind::File {
        Some(name)
    } else {
        first_file(answers, directory, name + 1, count)
    }
}

/// The files in the directories from one on, at most one in each.
pub open spec fn files_from(answers: Answers, directory: int, directories: int, names: int) -> Seq<
    Seq<char>,
>
    decreases directories - directory,
{
    if directory >= directories {
        Seq::empty()
    } else {
        let rest = files_from(answers, directory + 1, directories, names);
        match first_file(answers, directory, 0, names) {
            Some(name) => seq![(answers.path)(directory, name)] + rest,
            None => rest,
        }
    }
}

/// The end of a scan that gets all its answers.
pub open spec fn scanned(scan: ScanView, answers: Answers) -> ScanView
    decreases scan.directories.len() - scan.directory, scan.names.len() - scan.name,
    when scan.wf()
{
    let kind = (answers.kind)(scan.directory, scan.name);
    if scan.is_done() || kind == PathKind::Failed {
        scan
    } else {
        scanned(scan.probed((answers.path)(scan.directory, scan.name), kind), answers)
    }
}

proof fn lemma_scanned(scan: ScanView, answers: Answers)
    requires
        scan.wf(),
        forall|d: int, n: int|
            0 <= d < scan.directories.len() && 0 <= n < scan.names.len() ==> #[trigger] (
            answers.kind)(d, n) != PathKind::Failed,
    ensures
        scan.is_done() ==> scanned(scan, answers).found == scan.found,
        !scan.is_done() ==> scanned(scan, answers).found == scan.found + match first_file(
            answers,
            scan.directory,
            scan.name,
            scan.names.len() as int,
        ) {
            Some(name) => seq![(answers.path)(scan.directory, name)],
            None => Seq::empty(),
        } + files_from(
            answers,
            scan.directory + 1,
            scan.directories.len() as int,
            scan.names.len() as int,
        ),
    decreases scan.directories.len() - scan.directory, scan.names.len() - scan.name,
{
    if !scan.is_done() {
        let directories = scan.directories.len() as int;
        let names = scan.names.len() as int;
        let kind = (answers.kind)(scan.directory, scan.name);
        let path = (answers.path)(scan.directory, scan.name);
        let next = scan.probed(path, kind);
        assert(kind != PathKind::Failed);
        lemma_scanned(next, answers);
        let rest = files_from(answers, scan.directory + 1, directories, names);
        let first = first_file(answers, scan.directory, scan.name, names);
        if kind == PathKind::File {
            assert(first == Some(scan.name));
            assert(scanned(next, answers).found =~= next.found + rest);
            assert(scan.found.push(path) + rest =~= scan.found + seq![path] + rest);
        } else if scan.name + 1 < scan.names.len() {
        } else {
            assert(first_file(answers, scan.directory, names, names) is None);
            assert(first is None);
            assert(scanned(next, answers).found =~= next.found + rest);
            assert(scan.found + Seq::<Seq<char>>::empty() + rest =~= scan.found + rest);
        }
    }
}

/// In each directory, from the root down, the first of the names that is a
/// file is read, and no other.
pub proof fn lemma_scan_finds_preferred(
    directories: Seq<Seq<char>>,
    names: Seq<Seq<char>>,
    answers: Answers,
)
    requires
        names.len() > 0,
        forall|d: int, n: int|
            0 <= d < directories.len() && 0 <= n < names.len() ==> #[trigger] (answers.kind)(d, n)
                != PathKind::Failed,
    ensures
        scanned(ScanView::new(directories, names), answers).found == files_from(
            answers,
            0,
            directories.len() as int,
            names.len() as int,
        ),
{
    let start = ScanView::new(directories, names);
    lemma_scanned(start, answers);
    assert(scanned(start, answers).found =~= files_from(
        answers,
        0,
        directories.len() as int,
        names.len() as int,
    ));
}

/// The override comes before the default name, and both before the fallbacks,
/// and no name is looked for twice.
pub proof fn lemma_candidate_order(fallbacks: Seq<Seq<char>>)
    ensures
        names_with(fallbacks).len() >= 2,
        names_with(fallbacks)[0] == LOCAL_AGENTS_MD_FILENAME@,
        names_with(fallbacks)[1] == DEFAULT_AGENTS_MD_FILENAME@,
        names_with(fallbacks).no_duplicates(),
    decreases fallbacks.len(),
{
    if fallbacks.len() == 0 {
        reveal_strlit("AGENTS.override.md");
        reveal_strlit("AGENTS.md");
        assert(LOCAL_AGENTS_MD_FILENAME@.len() != DEFAULT_AGENTS_MD_FILENAME@.len());
    } else {
        lemma_candidate_order(fallbacks.drop_last());
        let before = names_with(fallbacks.drop_last());
        let name = fallbacks.last();
        if name.len() > 0 && !before.contains(name) {
            let after = before.push(name);
            assert forall|i: int, j: int|
                0 <= i < after.len() && 0 <= j < after.len() && i != j implies after[i]
                != after[j] by {
                if i == before.len() {
                    assert(before.contains(before[j]));
                } else if j == before.len() {
                    assert(before.contains(before[i]));
                }
            }
        }
    }
}

/// What to do about a path that the task is about.
pub enum FocusStep {
    /// This directory is looked at.
    Directory(String),
    /// The file system is asked about the parent.
    AskParent(String),
    /// There is nothing to look at.
    Skip,
    /// The file system could not tell.
    Fail,
}

/// Decides about a path that the task is about: a directory is looked at
/// itself, a file gives the directory it lies in, and a path that does not
/// exist may be about to be created in its parent.
pub fn focus_step(path: &str, kind: PathKind, parent: Option<String>) -> (r: FocusStep)
    ensures
        match (kind, parent) {
            (PathKind::Directory, _) => r matches FocusStep::Directory(directory) && directory@
                == path@,
            (PathKind::File, Some(parent)) => r matches FocusStep::Directory(directory)
                && directory@ == parent@,
            (PathKind::NotFound, Some(parent)) => r matches FocusStep::AskParent(directory)
                && directory@ == parent@,
            (PathKind::Failed, _) => r is Fail,
            _ => r is Skip,
        },
{
    match kind {
        PathKind::Directory => FocusStep::Directory(owned(path)),
        PathKind::File => match parent {
            Some(parent) => FocusStep::Directory(parent),
            None => FocusStep::Skip,
        },
        PathKind::Other => FocusStep::Skip,
        PathKind::NotFound => match parent {
            Some(parent) => FocusStep::AskParent(parent),
            None => FocusStep::Skip,
        },
        PathKind::Failed => FocusStep::Fail,
    }
}

/// Decides about the parent of a path that does not exist.
pub fn focus_parent_step(parent: String, kind: PathKind) -> (r: FocusStep)
    ensures
        match kind {
            PathKind::Directory => r matches FocusStep::Directory(directory) && directory@
                == parent@,
            PathKind::Failed => r is Fail,
            _ => r is Skip,
        },
{
    match kind {
        PathKind::Directory => FocusStep::Directory(parent),
        PathKind::Failed => FocusStep::Fail,
        _ => FocusStep::Skip,
    }
}

/// The paths of the focus paths of an environment.
pub open spec fn paths_of(focus: Seq<FocusView>, environment_id: Seq<char>) -> Seq<Seq<char>>
    decreases focus.len(),
{
    if focus.len() == 0 {
        Seq::empty()
    } else {
        let before = paths_of(focus.drop_last(), environment_id);
        if focus.last().environment_id == environment_id {
            before.push(focus.last().path)
        } else {
            before
        }
    }
}

/// The paths of the focus paths of an environment, in order.
pub fn environment_focus_paths(focus: &Vec<AgentsMdFocusPath>, environment_id: &str) -> (r: Vec<
    String,
>)
    ensures
        texts(r@) == paths_of(focus_views(focus@), environment_id@),
{
    let ghost all = focus_views(focus@);
    let mut r: Vec<String> = Vec::new();
    assert(texts(r@) =~= paths_of(all.take(0), environment_id@));
    let mut i: usize = 0;
    while i < focus.len()
        invariant
            i <= focus@.len(),
            all == focus_views(focus@),
            texts(r@) == paths_of(all.take(i as int), environment_id@),
        decreases focus.len() - i,
    {
        assert(all.take(i + 1).drop_last() =~= all.take(i as int));
        assert(all.take(i + 1).last() == focus@[i as int]@);
        if str_eq(focus[i].environment_id.as_str(), environment_id) {
            let path = owned(focus[i].path.as_str());
            proof {
                lemma_texts_push(r@, path);
            }
            r.push(path);
        }
        i += 1;
    }
    assert(all.take(i as int) =~= all);
    r
}

/// What came of the files of an environment.
pub enum EnvironmentDocs {
    Loaded(LoadedAgentsMd),
    Nothing,
    /// The file system failed; the other environments still count.
    Failed,
}

/// The entries that an environment gives.
pub open spec fn docs_entries(docs: EnvironmentDocs) -> Seq<EntryView> {
    match docs {
        EnvironmentDocs::Loaded(loaded) => loaded@.entries,
        _ => Seq::empty(),
    }
}

/// The entries that environments give.
pub open spec fn all_entries(docs: Seq<EnvironmentDocs>) -> Seq<EntryView>
    decreases docs.len(),
{
    if docs.len() == 0 {
        Seq::empty()
    } else {
        all_entries(docs.drop_last()) + docs_entries(docs.last())
    }
}

/// The user's instructions followed by those of the environments, if there are
/// any.
pub fn load_project_instructions(
    user_instructions: Option<UserInstructions>,
    docs: Vec<EnvironmentDocs>,
) -> (r: Option<LoadedAgentsMd>)
    ensures
        ({
            let all = LoadedView {
                user_instructions: filled_user(user_view(user_instructions)),
                entries: all_entries(docs@),
            };
            match r {
                Some(loaded) => !all.is_empty() && loaded@ == all,
                None => all.is_empty(),
            }
        }),
{
    let ghost given = docs@;
    let ghost user = filled_user(user_view(user_instructions));
    let mut loaded = LoadedAgentsMd::from_user_instructions(user_instructions);
    let mut docs = docs;
    assert(all_entries(given.take(0)) =~= Seq::empty());
    assert(given.skip(0) =~= given);
    let mut done: Ghost<int> = Ghost(0);
    while docs.len() > 0
        invariant
            0 <= done@ <= given.len(),
            docs@ == given.skip(done@),
            loaded@ == (LoadedView {
                user_instructions: user,
                entries: all_entries(given.take(done@)),
            }),
        decreases docs@.len(),
    {
        let ghost entries = loaded@.entries;
        let next = docs.remove(0);
        proof {
            assert(next == given[done@]);
            assert(given.take(done@ + 1).drop_last() =~= given.take(done@));
            assert(docs@ =~= given.skip(done@ + 1));
        }
        match next {
            EnvironmentDocs::Loaded(more) => {
                let mut more = more.entries;
                let ghost own = loaded.entries@;
                let ghost added = more@;
                loaded.entries.append(&mut more);
                assert(entry_views(loaded.entries@) =~= entry_views(own) + entry_views(added));
            },
            EnvironmentDocs::Nothing => {
                assert(entries + Seq::<EntryView>::empty() =~= entries);
            },
            EnvironmentDocs::Failed => {
                assert(entries + Seq::<EntryView>::empty() =~= entries);
            },
        }
        proof {
            done@ = done@ + 1;
        }
    }
    assert(given.take(done@) =~= given);
    if loaded.is_empty() {
        None
    } else {
        Some(loaded)
    }
}

} // verus!
