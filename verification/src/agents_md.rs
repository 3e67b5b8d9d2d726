//! Instructions for the model, loaded from AGENTS.md files.
//!
//! Paths are the texts of their URIs: two paths are the same where their texts
//! are.

use vstd::prelude::*;

use crate::search::{has_prefix, occurs, occurs_at};
use crate::split::join;
use crate::text::{blank, is_blank, lemma_texts_push, owned, str_eq, texts};

verus! {

/// The file that is looked for.
pub const DEFAULT_AGENTS_MD_FILENAME: &'static str = "AGENTS.md";

/// The local file that is preferred to it.
pub const LOCAL_AGENTS_MD_FILENAME: &'static str = "AGENTS.override.md";

/// Stands where project instructions begin after others.
pub const AGENTS_MD_SEPARATOR: &'static str = "\n\n--- project-doc ---\n\n";

/// Instructions that the host provides.
pub struct UserInstructions {
    pub text: String,
    /// The path of the file that they come from.
    pub source: String,
}

/// A working directory: its path and how it is written on its machine.
pub struct WorkingDirectory {
    pub path: String,
    pub native: String,
}

/// Where an instruction comes from.
pub enum InstructionProvenance {
    /// A file that was found in the workspace.
    Project {
        /// The file, distinct from the environment's working directory.
        source_path: String,
        environment_id: String,
        cwd: WorkingDirectory,
    },
    /// No file.
    Internal,
}

/// One instruction and where it comes from.
pub struct InstructionEntry {
    pub contents: String,
    pub provenance: InstructionProvenance,
}

/// Instructions for the model from AGENTS.md files and internal guidance.
pub struct LoadedAgentsMd {
    pub user_instructions: Option<UserInstructions>,
    pub entries: Vec<InstructionEntry>,
}

/// How instructions are put before the model.
pub struct InstructionFragment {
    /// The directory they hold for, where there is a single one.
    pub directory: Option<String>,
    pub text: String,
}

/// The view of [`UserInstructions`].
pub struct UserView {
    pub text: Seq<char>,
    pub source: Seq<char>,
}

/// The view of a [`WorkingDirectory`].
pub struct CwdView {
    pub path: Seq<char>,
    pub native: Seq<char>,
}

/// The view of an [`InstructionProvenance`].
pub enum ProvenanceView {
    Project { source_path: Seq<char>, environment_id: Seq<char>, cwd: CwdView },
    Internal,
}

/// The view of an [`InstructionEntry`].
pub struct EntryView {
    pub contents: Seq<char>,
    pub provenance: ProvenanceView,
}

/// The view of a [`LoadedAgentsMd`].
pub struct LoadedView {
    pub user_instructions: Option<UserView>,
    pub entries: Seq<EntryView>,
}

impl View for UserInstructions {
    type V = UserView;

    open spec fn view(&self) -> UserView {
        UserView { text: self.text@, source: self.source@ }
    }
}

impl View for WorkingDirectory {
    type V = CwdView;

    open spec fn view(&self) -> CwdView {
        CwdView { path: self.path@, native: self.native@ }
    }
}

impl View for InstructionProvenance {
    type V = ProvenanceView;

    open spec fn view(&self) -> ProvenanceView {
        match *self {
            InstructionProvenance::Project { source_path, environment_id, cwd } => {
                ProvenanceView::Project {
                    source_path: source_path@,
                    environment_id: environment_id@,
                    cwd: cwd@,
                }
            },
            InstructionProvenance::Internal => ProvenanceView::Internal,
        }
    }
}

impl View for InstructionEntry {
    type V = EntryView;

    open spec fn view(&self) -> EntryView {
        EntryView { contents: self.contents@, provenance: self.provenance@ }
    }
}

/// The views of entries.
pub open spec fn entry_views(entries: Seq<InstructionEntry>) -> Seq<EntryView> {
    Seq::new(entries.len(), |i: int| entries[i]@)
}

/// The view of instructions that may be missing.
pub open spec fn user_view(user: Option<UserInstructions>) -> Option<UserView> {
    match user {
        Some(user) => Some(user@),
        None => None,
    }
}

impl View for LoadedAgentsMd {
    type V = LoadedView;

    open spec fn view(&self) -> LoadedView {
        LoadedView {
            user_instructions: user_view(self.user_instructions),
            entries: entry_views(self.entries@),
        }
    }
}

impl EntryView {
    /// Whether the instruction comes from the workspace.
    pub open spec fn is_project(self) -> bool {
        self.provenance is Project
    }

    /// Whether both instructions come from one environment and directory.
    pub open spec fn shares_environment(self, other: EntryView) -> bool {
        match (self.provenance, other.provenance) {
            (
                ProvenanceView::Project { environment_id: a, cwd: b, .. },
                ProvenanceView::Project { environment_id: c, cwd: d, .. },
            ) => a == c && b.path == d.path,
            _ => false,
        }
    }

    /// Whether both instructions come from the workspace, but from different
    /// environments.
    pub open spec fn differs_in_environment(self, other: EntryView) -> bool {
        match (self.provenance, other.provenance) {
            (
                ProvenanceView::Project { environment_id: a, .. },
                ProvenanceView::Project { environment_id: b, .. },
            ) => a != b,
            _ => false,
        }
    }

    /// What names the environment of an instruction.
    pub open spec fn label(self) -> Seq<char> {
        match self.provenance {
            ProvenanceView::Project { environment_id, cwd, .. } => "for `"@ + environment_id
                + "` with root "@ + cwd.native + "\n\n"@,
            ProvenanceView::Internal => Seq::empty(),
        }
    }
}

/// Whether instructions come from more than one environment.
pub open spec fn has_many_environments(entries: Seq<EntryView>) -> bool {
    exists|i: int, j: int|
        #![trigger entries[i], entries[j]]
        0 <= i < j < entries.len() && entries[i].differs_in_environment(entries[j])
}

/// The text of the user's instructions.
pub open spec fn user_text(user: Option<UserView>) -> Seq<char> {
    match user {
        Some(user) => user.text,
        None => Seq::empty(),
    }
}

/// What stands before the last of `entries`, where no environment is named.
pub open spec fn plain_separator(user: Option<UserView>, entries: Seq<EntryView>) -> Seq<char> {
    if user is None && entries.len() == 1 {
        Seq::empty()
    } else if entries.last().is_project() && !(entries.len() > 1 && entries[entries.len()
        - 2].is_project()) {
        AGENTS_MD_SEPARATOR@
    } else {
        "\n\n"@
    }
}

/// The instructions in order, where no environment is named.
pub open spec fn plain_text(user: Option<UserView>, entries: Seq<EntryView>) -> Seq<char>
    decreases entries.len(),
{
    if entries.len() == 0 {
        user_text(user)
    } else {
        plain_text(user, entries.drop_last()) + plain_separator(user, entries)
            + entries.last().contents
    }
}

/// What stands before the last of `entries`, where environments are named: each
/// group of one environment is named once.
pub open spec fn labeled_separator(user: Option<UserView>, entries: Seq<EntryView>) -> Seq<char> {
    (if user is None && entries.len() == 1 {
        Seq::empty()
    } else {
        "\n\n"@
    }) + (if entries.len() > 1 && entries.last().shares_environment(entries[entries.len() - 2]) {
        Seq::empty()
    } else {
        entries.last().label()
    })
}

/// The instructions in order, where environments are named.
pub open spec fn labeled_text(user: Option<UserView>, entries: Seq<EntryView>) -> Seq<char>
    decreases entries.len(),
{
    if entries.len() == 0 {
        user_text(user)
    } else {
        labeled_text(user, entries.drop_last()) + labeled_separator(user, entries)
            + entries.last().contents
    }
}

/// The paths of the files that entries come from.
pub open spec fn entry_sources(entries: Seq<EntryView>) -> Seq<Seq<char>>
    decreases entries.len(),
{
    if entries.len() == 0 {
        Seq::empty()
    } else {
        let before = entry_sources(entries.drop_last());
        match entries.last().provenance {
            ProvenanceView::Project { source_path, .. } => before.push(source_path),
            ProvenanceView::Internal => before,
        }
    }
}

/// How the directory of the first project instruction is written.
pub open spec fn first_directory(entries: Seq<EntryView>) -> Option<Seq<char>>
    decreases entries.len(),
{
    if entries.len() == 0 {
        None
    } else {
        match entries[0].provenance {
            ProvenanceView::Project { cwd, .. } => Some(cwd.native),
            ProvenanceView::Internal => first_directory(entries.skip(1)),
        }
    }
}

/// The user's instructions, unless they are blank.
pub open spec fn filled_user(user: Option<UserView>) -> Option<UserView> {
    match user {
        Some(instructions) => if is_blank(instructions.text) {
            None
        } else {
            user
        },
        None => None,
    }
}

impl LoadedView {
    /// No instructions.
    pub open spec fn none() -> LoadedView {
        LoadedView { user_instructions: None, entries: Seq::empty() }
    }

    /// Whether there is nothing to tell the model.
    pub open spec fn is_empty(self) -> bool {
        self.user_instructions is None && forall|i: int|
            0 <= i < self.entries.len() ==> is_blank((#[trigger] self.entries[i]).contents)
    }

    /// The text for the model.
    pub open spec fn text(self) -> Seq<char> {
        if has_many_environments(self.entries) {
            labeled_text(self.user_instructions, self.entries)
        } else {
            plain_text(self.user_instructions, self.entries)
        }
    }

    /// The paths of the files that the instructions come from.
    pub open spec fn sources(self) -> Seq<Seq<char>> {
        match self.user_instructions {
            Some(user) => seq![user.source] + entry_sources(self.entries),
            None => entry_sources(self.entries),
        }
    }

    /// The directory that the instructions hold for, where there is a single
    /// one.
    pub open spec fn directory(self) -> Option<Seq<char>> {
        if has_many_environments(self.entries) {
            None
        } else {
            first_directory(self.entries)
        }
    }
}

impl Default for LoadedAgentsMd {
    fn default() -> (r: Self)
        ensures
            r@ == LoadedView::none(),
    {
        let r = LoadedAgentsMd { user_instructions: None, entries: Vec::new() };
        assert(entry_views(r.entries@) =~= Seq::empty());
        r
    }
}

impl LoadedAgentsMd {
    /// Instructions of the user alone.
    pub fn new_user(contents: String, path: String) -> (r: Self)
        ensures
            r@ == (LoadedView {
                user_instructions: filled_user(Some(UserView { text: contents@, source: path@ })),
                entries: Seq::empty(),
            }),
    {
        Self::from_user_instructions(Some(UserInstructions { text: contents, source: path }))
    }

    /// Instructions of the user alone, if there are any.
    pub fn from_user_instructions(user_instructions: Option<UserInstructions>) -> (r: Self)
        ensures
            r@ == (LoadedView {
                user_instructions: filled_user(user_view(user_instructions)),
                entries: Seq::empty(),
            }),
    {
        let ghost given = user_view(user_instructions);
        let kept = filled_instructions(user_instructions);
        let r = LoadedAgentsMd { user_instructions: kept, entries: Vec::new() };
        assert(entry_views(r.entries@) =~= Seq::empty());
        r
    }

    /// Instructions without a source.
    pub fn from_text_for_testing(contents: String) -> (r: Self)
        ensures
            r@ == (LoadedView {
                user_instructions: None,
                entries: if is_blank(contents@) {
                    Seq::empty()
                } else {
                    seq![EntryView { contents: contents@, provenance: ProvenanceView::Internal }]
                },
            }),
    {
        let ghost text = contents@;
        let mut entries: Vec<InstructionEntry> = Vec::new();
        assert(entry_views(entries@) =~= Seq::empty());
        if !blank(contents.as_str()) {
            entries.push(
                InstructionEntry { contents, provenance: InstructionProvenance::Internal },
            );
            assert(entry_views(entries@) =~= seq![
                EntryView { contents: text, provenance: ProvenanceView::Internal },
            ]);
        }
        LoadedAgentsMd { user_instructions: None, entries }
    }

    /// Whether there is nothing to tell the model.
    pub fn is_empty(&self) -> (r: bool)
        ensures
            r == self@.is_empty(),
    {
        if self.user_instructions.is_some() {
            return false;
        }
        let mut i: usize = 0;
        while i < self.entries.len()
            invariant
                i <= self.entries@.len(),
                forall|j: int| 0 <= j < i ==> is_blank((#[trigger] self@.entries[j]).contents),
            decreases self.entries.len() - i,
        {
            if !blank(self.entries[i].contents.as_str()) {
                assert(!is_blank(self@.entries[i as int].contents));
                return false;
            }
            i += 1;
        }
        true
    }

    /// The text for the model.
    pub fn text(&self) -> (r: String)
        ensures
            r@ == self@.text(),
    {
        if self.has_multiple_project_environments() {
            self.environment_labeled_text()
        } else {
            self.legacy_text()
        }
    }

    fn opening(&self) -> (r: String)
        ensures
            r@ == user_text(self@.user_instructions),
    {
        match &self.user_instructions {
            Some(instructions) => owned(instructions.text.as_str()),
            None => {
                let r = String::new();
                assert(r@ =~= Seq::empty());
                r
            },
        }
    }

    fn legacy_text(&self) -> (r: String)
        ensures
            r@ == plain_text(self@.user_instructions, self@.entries),
    {
        let ghost user = self@.user_instructions;
        let ghost all = self@.entries;
        let mut output = self.opening();
        let mut has_previous = self.user_instructions.is_some();
        let mut previous_was_project = false;
        let mut i: usize = 0;
        while i < self.entries.len()
            invariant
                i <= self.entries@.len(),
                user == self@.user_instructions,
                all == self@.entries,
                output@ == plain_text(user, all.take(i as int)),
                has_previous == (user is Some || i > 0),
                previous_was_project == (i > 0 && all[i - 1].is_project()),
            decreases self.entries.len() - i,
        {
            let entry = &self.entries[i];
            let is_project = match entry.provenance {
                InstructionProvenance::Project { .. } => true,
                InstructionProvenance::Internal => false,
            };
            let ghost before = output@;
            let ghost prefix = all.take(i + 1);
            assert(prefix.drop_last() =~= all.take(i as int));
            assert(prefix.last() == entry@);
            if has_previous {
                if is_project && !previous_was_project {
                    output.append(AGENTS_MD_SEPARATOR);
                } else {
                    output.append("\n\n");
                }
            }
            assert(output@ =~= before + plain_separator(user, prefix));
            output.append(entry.contents.as_str());
            has_previous = true;
            previous_was_project = is_project;
            i += 1;
        }
        assert(all.take(i as int) =~= all);
        output
    }

    fn environment_labeled_text(&self) -> (r: String)
        ensures
            r@ == labeled_text(self@.user_instructions, self@.entries),
    {
        let ghost user = self@.user_instructions;
        let ghost all = self@.entries;
        let mut output = self.opening();
        let mut i: usize = 0;
        while i < self.entries.len()
            invariant
                i <= self.entries@.len(),
                user == self@.user_instructions,
                all == self@.entries,
                output@ == labeled_text(user, all.take(i as int)),
            decreases self.entries.len() - i,
        {
            let entry = &self.entries[i];
            let ghost before = output@;
            let ghost prefix = all.take(i + 1);
            assert(prefix.drop_last() =~= all.take(i as int));
            assert(prefix.last() == entry@);
            if self.user_instructions.is_some() || i > 0 {
                output.append("\n\n");
            }
            let ghost middle = output@;
            assert(i > 0 ==> prefix[prefix.len() - 2] == self.entries@[i - 1]@);
            let shares = i > 0 && shares_environment(entry, &self.entries[i - 1]);
            match &entry.provenance {
                InstructionProvenance::Project { environment_id, cwd, .. } => {
                    // One environment can contribute several files from its
                    // project root through its working directory, and is named
                    // once for the complete group.
                    if !shares {
                        output.append("for `");
                        output.append(environment_id.as_str());
                        output.append("` with root ");
                        output.append(cwd.native.as_str());
                        output.append("\n\n");
                        assert(output@ =~= middle + entry@.label());
                    }
                },
                InstructionProvenance::Internal => {},
            }
            assert(output@ =~= before + labeled_separator(user, prefix));
            output.append(entry.contents.as_str());
            i += 1;
        }
        assert(all.take(i as int) =~= all);
        output
    }

    /// How the instructions are put before the model. One environment alone
    /// gives its directory; with more, the text names each one itself.
    pub fn contextual_user_fragment(&self) -> (r: InstructionFragment)
        ensures
            crate::text::opt_text(r.directory) == self@.directory(),
            r.text@ == self@.text(),
    {
        let directory = if self.has_multiple_project_environments() {
            None
        } else {
            self.single_project_cwd()
        };
        InstructionFragment { directory, text: self.text() }
    }

    /// The paths of the files that the instructions come from.
    pub fn sources(&self) -> (r: Vec<String>)
        ensures
            texts(r@) == self@.sources(),
    {
        let ghost all = self@.entries;
        let mut r: Vec<String> = Vec::new();
        assert(texts(r@) =~= Seq::empty());
        match &self.user_instructions {
            Some(instructions) => {
                r.push(owned(instructions.source.as_str()));
                assert(texts(r@) =~= seq![instructions.source@]);
            },
            None => {},
        }
        let ghost first = texts(r@);
        let mut i: usize = 0;
        assert(first + entry_sources(all.take(0)) =~= first);
        while i < self.entries.len()
            invariant
                i <= self.entries@.len(),
                all == self@.entries,
                texts(r@) == first + entry_sources(all.take(i as int)),
            decreases self.entries.len() - i,
        {
            let ghost prefix = all.take(i + 1);
            assert(prefix.drop_last() =~= all.take(i as int));
            assert(prefix.last() == self.entries@[i as int]@);
            match &self.entries[i].provenance {
                InstructionProvenance::Project { source_path, .. } => {
                    let path = owned(source_path.as_str());
                    proof {
                        lemma_texts_push(r@, path);
                    }
                    r.push(path);
                    assert(texts(r@) =~= first + entry_sources(prefix));
                },
                InstructionProvenance::Internal => {},
            }
            i += 1;
        }
        assert(all.take(i as int) =~= all);
        assert(Seq::<Seq<char>>::empty() + entry_sources(all) =~= entry_sources(all));
        r
    }

    /// Whether the instructions come from more than one environment.
    pub fn has_multiple_project_environments(&self) -> (r: bool)
        ensures
            r == has_many_environments(self@.entries),
    {
        let ghost all = self@.entries;
        let mut first: Option<usize> = None;
        let mut i: usize = 0;
        while i < self.entries.len()
            invariant
                i <= self.entries@.len(),
                all == self@.entries,
                match first {
                    Some(k) => k < i && all[k as int].is_project() && forall|j: int|
                        0 <= j < i ==> !all[k as int].differs_in_environment(#[trigger] all[j]),
                    None => forall|j: int| 0 <= j < i ==> !(#[trigger] all[j]).is_project(),
                },
            decreases self.entries.len() - i,
        {
            assert(all[i as int] == self.entries@[i as int]@);
            match &self.entries[i].provenance {
                InstructionProvenance::Project { environment_id, .. } => match first {
                    Some(k) => {
                        assert(all[k as int] == self.entries@[k as int]@);
                        match &self.entries[k].provenance {
                            InstructionProvenance::Project { environment_id: known, .. } => {
                                if !str_eq(known.as_str(), environment_id.as_str()) {
                                    assert(all[k as int].differs_in_environment(all[i as int]));
                                    return true;
                                }
                            },
                            InstructionProvenance::Internal => {},
                        }
                    },
                    None => {
                        first = Some(i);
                    },
                },
                InstructionProvenance::Internal => {},
            }
            i += 1;
        }
        proof {
            assert forall|a: int, b: int|
                #![trigger all[a], all[b]]
                0 <= a < b < all.len() implies !all[a].differs_in_environment(all[b]) by {
                match first {
                    Some(k) => {
                        assert(!all[k as int].differs_in_environment(all[a]));
                        assert(!all[k as int].differs_in_environment(all[b]));
                    },
                    None => {
                        assert(!all[a].is_project());
                    },
                }
            }
        }
        false
    }

    /// How the directory of the first project instruction is written.
    pub fn single_project_cwd(&self) -> (r: Option<String>)
        ensures
            crate::text::opt_text(r) == first_directory(self@.entries),
    {
        let ghost all = self@.entries;
        let mut i: usize = 0;
        assert(all.skip(0) =~= all);
        while i < self.entries.len()
            invariant
                i <= self.entries@.len(),
                all == self@.entries,
                first_directory(all.skip(i as int)) == first_directory(all),
            decreases self.entries.len() - i,
        {
            assert(all.skip(i as int)[0] == self.entries@[i as int]@);
            assert(all.skip(i as int).skip(1) =~= all.skip(i + 1));
            match &self.entries[i].provenance {
                InstructionProvenance::Project { cwd, .. } => {
                    return Some(owned(cwd.native.as_str()));
                },
                InstructionProvenance::Internal => {},
            }
            i += 1;
        }
        None
    }
}

/// The user's instructions, unless they are blank.
pub fn filled_instructions(user_instructions: Option<UserInstructions>) -> (r: Option<
    UserInstructions,
>)
    ensures
        user_view(r) == filled_user(user_view(user_instructions)),
{
    match user_instructions {
        Some(instructions) => {
            if blank(instructions.text.as_str()) {
                None
            } else {
                Some(instructions)
            }
        },
        None => None,
    }
}

fn shares_environment(a: &InstructionEntry, b: &InstructionEntry) -> (r: bool)
    ensures
        r == a@.shares_environment(b@),
{
    match (&a.provenance, &b.provenance) {
        (
            InstructionProvenance::Project { environment_id: x, cwd: c, .. },
            InstructionProvenance::Project { environment_id: y, cwd: d, .. },
        ) => str_eq(x.as_str(), y.as_str()) && str_eq(c.path.as_str(), d.path.as_str()),
        _ => false,
    }
}

proof fn lemma_occurs_in_longer(a: Seq<char>, b: Seq<char>, pat: Seq<char>)
    requires
        occurs(a, pat),
    ensures
        occurs(a + b, pat),
{
    let i = choose|i: int| #[trigger] occurs_at(a, pat, i);
    assert((a + b).subrange(i, i + pat.len()) =~= a.subrange(i, i + pat.len()));
    assert(occurs_at(a + b, pat, i));
}

proof fn lemma_occurs_at_end(a: Seq<char>, pat: Seq<char>)
    ensures
        occurs(a + pat, pat),
{
    assert((a + pat).subrange(a.len() as int, (a.len() + pat.len()) as int) =~= pat);
    assert(occurs_at(a + pat, pat, a.len() as int));
}

proof fn lemma_plain_text_holds(user: Option<UserView>, entries: Seq<EntryView>, i: int)
    requires
        0 <= i < entries.len(),
    ensures
        occurs(plain_text(user, entries), entries[i].contents),
    decreases entries.len(),
{
    let before = plain_text(user, entries.drop_last());
    let separator = plain_separator(user, entries);
    if i == entries.len() - 1 {
        lemma_occurs_at_end(before + separator, entries.last().contents);
    } else {
        lemma_plain_text_holds(user, entries.drop_last(), i);
        lemma_occurs_in_longer(before, separator, entries[i].contents);
        lemma_occurs_in_longer(before + separator, entries.last().contents, entries[i].contents);
    }
}

proof fn lemma_labeled_text_holds(user: Option<UserView>, entries: Seq<EntryView>, i: int)
    requires
        0 <= i < entries.len(),
    ensures
        occurs(labeled_text(user, entries), entries[i].contents),
    decreases entries.len(),
{
    let before = labeled_text(user, entries.drop_last());
    let separator = labeled_separator(user, entries);
    if i == entries.len() - 1 {
        lemma_occurs_at_end(before + separator, entries.last().contents);
    } else {
        lemma_labeled_text_holds(user, entries.drop_last(), i);
        lemma_occurs_in_longer(before, separator, entries[i].contents);
        lemma_occurs_in_longer(before + separator, entries.last().contents, entries[i].contents);
    }
}

proof fn lemma_text_opens(user: Option<UserView>, entries: Seq<EntryView>)
    ensures
        has_prefix(plain_text(user, entries), user_text(user)),
        has_prefix(labeled_text(user, entries), user_text(user)),
    decreases entries.len(),
{
    let opening = user_text(user);
    if entries.len() == 0 {
        assert(opening.subrange(0, opening.len() as int) =~= opening);
    } else {
        lemma_text_opens(user, entries.drop_last());
        let a = plain_text(user, entries);
        let b = plain_text(user, entries.drop_last());
        assert(a.subrange(0, opening.len() as int) =~= b.subrange(0, opening.len() as int));
        let c = labeled_text(user, entries);
        let d = labeled_text(user, entries.drop_last());
        assert(c.subrange(0, opening.len() as int) =~= d.subrange(0, opening.len() as int));
    }
}

/// The text for the model begins with the user's instructions and holds the
/// contents of every entry.
pub proof fn lemma_text_holds_everything(loaded: LoadedView)
    ensures
        has_prefix(loaded.text(), user_text(loaded.user_instructions)),
        forall|i: int|
            0 <= i < loaded.entries.len() ==> occurs(
                loaded.text(),
                (#[trigger] loaded.entries[i]).contents,
            ),
{
    lemma_text_opens(loaded.user_instructions, loaded.entries);
    assert forall|i: int| 0 <= i < loaded.entries.len() implies occurs(
        loaded.text(),
        (#[trigger] loaded.entries[i]).contents,
    ) by {
        lemma_plain_text_holds(loaded.user_instructions, loaded.entries, i);
        lemma_labeled_text_holds(loaded.user_instructions, loaded.entries, i);
    }
}

/// The contents of entries.
pub open spec fn contents_of(entries: Seq<EntryView>) -> Seq<Seq<char>> {
    Seq::new(entries.len(), |i: int| entries[i].contents)
}

/// Where the user's instructions are followed by those of one project alone,
/// the marker stands once, between the two.
pub proof fn lemma_marker_stands_once(user: UserView, entries: Seq<EntryView>)
    requires
        entries.len() > 0,
        forall|i: int| 0 <= i < entries.len() ==> (#[trigger] entries[i]).is_project(),
    ensures
        plain_text(Some(user), entries) == user.text + AGENTS_MD_SEPARATOR@ + join(
            contents_of(entries),
            "\n\n"@,
        ),
    decreases entries.len(),
{
    let parts = contents_of(entries);
    assert(entries.last().is_project());
    if entries.len() == 1 {
        assert(plain_text(Some(user), entries.drop_last()) == user.text);
        assert(join(parts, "\n\n"@) =~= entries.last().contents);
    } else {
        let rest = entries.drop_last();
        assert forall|i: int| 0 <= i < rest.len() implies (#[trigger] rest[i]).is_project() by {
            assert(rest[i] == entries[i]);
        }
        lemma_marker_stands_once(user, rest);
        assert(entries[entries.len() - 2].is_project());
        assert(parts.drop_last() =~= contents_of(rest));
        assert(plain_text(Some(user), entries) =~= user.text + AGENTS_MD_SEPARATOR@ + join(
            parts,
            "\n\n"@,
        ));
    }
}

} // verus!
