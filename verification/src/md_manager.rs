//! The instructions of a session, and when they are loaded anew.

use vstd::prelude::*;

use crate::agents_md::{
    filled_instructions, filled_user, user_view, LoadedAgentsMd, LoadedView, UserInstructions,
    UserView,
};
use crate::md_discovery::{focus_views, AgentsMdFocusPath, FocusView};
use crate::text::{owned, str_eq};

verus! {

/// An environment that is selected for a turn.
pub struct TurnEnvironmentSelection {
    pub environment_id: String,
    pub cwd: String,
}

/// The view of a [`TurnEnvironmentSelection`].
pub struct SelectionView {
    pub environment_id: Seq<char>,
    pub cwd: Seq<char>,
}

impl View for TurnEnvironmentSelection {
    type V = SelectionView;

    open spec fn view(&self) -> SelectionView {
        SelectionView { environment_id: self.environment_id@, cwd: self.cwd@ }
    }
}

/// The views of selections.
pub open spec fn selection_views(selections: Seq<TurnEnvironmentSelection>) -> Seq<SelectionView> {
    Seq::new(selections.len(), |i: int| selections[i]@)
}

/// When instructions are loaded anew.
#[derive(Clone, Copy, Debug, PartialEq, Eq, Structural)]
pub enum RefreshMode {
    IfSelectionChanged,
    Force,
}

/// Owns what the instructions of a session depend on, and the instructions.
pub struct AgentsMdManager {
    user_instructions: Option<UserInstructions>,
    selections: Option<Vec<TurnEnvironmentSelection>>,
    focus_paths: Vec<AgentsMdFocusPath>,
    loaded: Option<LoadedAgentsMd>,
}

/// The view of an [`AgentsMdManager`].
pub struct ManagerView {
    pub user_instructions: Option<UserView>,
    pub selections: Option<Seq<SelectionView>>,
    pub focus_paths: Seq<FocusView>,
    pub loaded: Option<LoadedView>,
}

/// The view of instructions that may be missing.
pub open spec fn loaded_view(loaded: Option<LoadedAgentsMd>) -> Option<LoadedView> {
    match loaded {
        Some(loaded) => Some(loaded@),
        None => None,
    }
}

impl View for AgentsMdManager {
    type V = ManagerView;

    closed spec fn view(&self) -> ManagerView {
        ManagerView {
            user_instructions: user_view(self.user_instructions),
            selections: match self.selections {
                Some(selections) => Some(selection_views(selections@)),
                None => None,
            },
            focus_paths: focus_views(self.focus_paths@),
            loaded: loaded_view(self.loaded),
        }
    }
}

/// Focus paths with one more, unless it is there already.
pub open spec fn with_focus(known: Seq<FocusView>, path: FocusView) -> Seq<FocusView> {
    if known.contains(path) {
        known
    } else {
        known.push(path)
    }
}

/// Focus paths with others added that are not there already.
pub open spec fn with_all_focus(known: Seq<FocusView>, added: Seq<FocusView>) -> Seq<FocusView>
    decreases added.len(),
{
    if added.len() == 0 {
        known
    } else {
        with_focus(with_all_focus(known, added.drop_last()), added.last())
    }
}

impl ManagerView {
    /// Whether instructions are to be loaded for selections and focus paths.
    pub open spec fn needs_load(
        self,
        selections: Seq<SelectionView>,
        focus_paths: Seq<FocusView>,
        mode: RefreshMode,
    ) -> bool {
        mode == RefreshMode::Force || self.selections != Some(selections) || self.focus_paths
            != focus_paths
    }

    /// Takes the instructions that were loaded.
    pub open spec fn refreshed(
        self,
        selections: Seq<SelectionView>,
        focus_paths: Seq<FocusView>,
        loaded: Option<LoadedView>,
    ) -> ManagerView {
        ManagerView { selections: Some(selections), focus_paths, loaded, ..self }
    }
}

fn clone_focus(path: &AgentsMdFocusPath) -> (r: AgentsMdFocusPath)
    ensures
        r@ == path@,
{
    AgentsMdFocusPath {
        environment_id: owned(path.environment_id.as_str()),
        path: owned(path.path.as_str()),
    }
}

fn focus_eq(a: &AgentsMdFocusPath, b: &AgentsMdFocusPath) -> (r: bool)
    ensures
        r == (a@ == b@),
{
    str_eq(a.environment_id.as_str(), b.environment_id.as_str()) && str_eq(
        a.path.as_str(),
        b.path.as_str(),
    )
}

fn contains_focus(paths: &Vec<AgentsMdFocusPath>, path: &AgentsMdFocusPath) -> (r: bool)
    ensures
        r == focus_views(paths@).contains(path@),
{
    let mut i: usize = 0;
    while i < paths.len()
        invariant
            i <= paths@.len(),
            forall|j: int| 0 <= j < i ==> #[trigger] focus_views(paths@)[j] != path@,
        decreases paths.len() - i,
    {
        if focus_eq(&paths[i], path) {
            assert(focus_views(paths@)[i as int] == path@);
            return true;
        }
        i += 1;
    }
    false
}

fn focus_paths_eq(a: &Vec<AgentsMdFocusPath>, b: &Vec<AgentsMdFocusPath>) -> (r: bool)
    ensures
        r == (focus_views(a@) == focus_views(b@)),
{
    if a.len() != b.len() {
        assert(focus_views(a@).len() != focus_views(b@).len());
        return false;
    }
    let mut i: usize = 0;
    while i < a.len()
        invariant
            i <= a@.len(),
            a@.len() == b@.len(),
            forall|j: int| 0 <= j < i ==> #[trigger] focus_views(a@)[j] == focus_views(b@)[j],
        decreases a.len() - i,
    {
        if !focus_eq(&a[i], &b[i]) {
            assert(focus_views(a@)[i as int] != focus_views(b@)[i as int]);
            return false;
        }
        i += 1;
    }
    assert(focus_views(a@) =~= focus_views(b@));
    true
}

fn selections_eq(a: &Vec<TurnEnvironmentSelection>, b: &Vec<TurnEnvironmentSelection>) -> (r: bool)
    ensures
        r == (selection_views(a@) == selection_views(b@)),
{
    if a.len() != b.len() {
        assert(selection_views(a@).len() != selection_views(b@).len());
        return false;
    }
    let mut i: usize = 0;
    while i < a.len()
        invariant
            i <= a@.len(),
            a@.len() == b@.len(),
            forall|j: int|
                0 <= j < i ==> #[trigger] selection_views(a@)[j] == selection_views(b@)[j],
        decreases a.len() - i,
    {
        if !str_eq(a[i].environment_id.as_str(), b[i].environment_id.as_str()) || !str_eq(
            a[i].cwd.as_str(),
            b[i].cwd.as_str(),
        ) {
            assert(selection_views(a@)[i as int] != selection_views(b@)[i as int]);
            return false;
        }
        i += 1;
    }
    assert(selection_views(a@) =~= selection_views(b@));
    true
}

impl AgentsMdManager {
    /// A manager that has loaded nothing.
    pub fn new(user_instructions: Option<UserInstructions>) -> (r: Self)
        ensures
            r@ == (ManagerView {
                user_instructions: filled_user(user_view(user_instructions)),
                selections: None,
                focus_paths: Seq::empty(),
                loaded: None,
            }),
    {
        let r = AgentsMdManager {
            user_instructions: filled_instructions(user_instructions),
            selections: None,
            focus_paths: Vec::new(),
            loaded: None,
        };
        assert(focus_views(r.focus_paths@) =~= Seq::empty());
        r
    }

    /// The focus paths that are known.
    pub fn focus_paths(&self) -> (r: Vec<AgentsMdFocusPath>)
        ensures
            focus_views(r@) == self@.focus_paths,
    {
        let mut r: Vec<AgentsMdFocusPath> = Vec::new();
        let mut i: usize = 0;
        while i < self.focus_paths.len()
            invariant
                i <= self.focus_paths@.len(),
                focus_views(r@) =~= focus_views(self.focus_paths@).take(i as int),
            decreases self.focus_paths.len() - i,
        {
            let ghost before = focus_views(r@);
            r.push(clone_focus(&self.focus_paths[i]));
            assert(focus_views(r@) =~= before.push(self.focus_paths@[i as int]@));
            i += 1;
        }
        assert(focus_views(r@) =~= focus_views(self.focus_paths@));
        r
    }

    /// The known focus paths with others added that are not known yet; nothing
    /// where there are no others.
    pub fn add_focus_paths(&self, focus_paths: &Vec<AgentsMdFocusPath>) -> (r: Option<
        Vec<AgentsMdFocusPath>,
    >)
        ensures
            match r {
                Some(next) => focus_paths@.len() > 0 && focus_views(next@) == with_all_focus(
                    self@.focus_paths,
                    focus_views(focus_paths@),
                ),
                None => focus_paths@.len() == 0,
            },
    {
        if focus_paths.len() == 0 {
            return None;
        }
        let ghost all = focus_views(focus_paths@);
        let mut next = self.focus_paths();
        let mut i: usize = 0;
        while i < focus_paths.len()
            invariant
                i <= focus_paths@.len(),
                all == focus_views(focus_paths@),
                focus_views(next@) == with_all_focus(self@.focus_paths, all.take(i as int)),
            decreases focus_paths.len() - i,
        {
            assert(all.take(i + 1).drop_last() =~= all.take(i as int));
            assert(all.take(i + 1).last() == focus_paths@[i as int]@);
            if !contains_focus(&next, &focus_paths[i]) {
                let ghost before = focus_views(next@);
                next.push(clone_focus(&focus_paths[i]));
                assert(focus_views(next@) =~= before.push(focus_paths@[i as int]@));
            }
            i += 1;
        }
        assert(all.take(i as int) =~= all);
        Some(next)
    }

    /// Whether instructions are to be loaded for selections and focus paths.
    pub fn needs_load(
        &self,
        selections: &Vec<TurnEnvironmentSelection>,
        focus_paths: &Vec<AgentsMdFocusPath>,
        mode: RefreshMode,
    ) -> (r: bool)
        ensures
            r == self@.needs_load(
                selection_views(selections@),
                focus_views(focus_paths@),
                mode,
            ),
    {
        if mode == RefreshMode::Force {
            return true;
        }
        match &self.selections {
            Some(known) => !selections_eq(known, selections) || !focus_paths_eq(
                &self.focus_paths,
                focus_paths,
            ),
            None => true,
        }
    }

    /// Takes the instructions that were loaded.
    pub fn complete_refresh(
        &mut self,
        selections: Vec<TurnEnvironmentSelection>,
        focus_paths: Vec<AgentsMdFocusPath>,
        loaded: Option<LoadedAgentsMd>,
    )
        ensures
            final(self)@ == old(self)@.refreshed(
                selection_views(selections@),
                focus_views(focus_paths@),
                loaded_view(loaded),
            ),
    {
        self.selections = Some(selections);
        self.focus_paths = focus_paths;
        self.loaded = loaded;
    }

    /// The instructions that are loaded.
    pub fn get_loaded(&self) -> (r: &Option<LoadedAgentsMd>)
        ensures
            loaded_view(*r) == self@.loaded,
    {
        &self.loaded
    }

    /// The user's instructions.
    pub fn user_instructions(&self) -> (r: Option<UserInstructions>)
        ensures
            user_view(r) == self@.user_instructions,
    {
        match &self.user_instructions {
            Some(user) => Some(
                UserInstructions {
                    text: owned(user.text.as_str()),
                    source: owned(user.source.as_str()),
                },
            ),
            None => None,
        }
    }
}

/// What was loaded for selections and focus paths is not loaded for them again,
/// unless that is forced.
pub proof fn lemma_loaded_once(
    manager: ManagerView,
    selections: Seq<SelectionView>,
    focus_paths: Seq<FocusView>,
    loaded: Option<LoadedView>,
)
    ensures
        !manager.refreshed(selections, focus_paths, loaded).needs_load(
            selections,
            focus_paths,
            RefreshMode::IfSelectionChanged,
        ),
        manager.needs_load(selections, focus_paths, RefreshMode::Force),
{
}

/// Adding focus paths keeps those that are known first and in order, adds
/// every new one, and none twice.
pub proof fn lemma_focus_paths_are_added_once(known: Seq<FocusView>, added: Seq<FocusView>)
    requires
        known.no_duplicates(),
    ensures
        with_all_focus(known, added).no_duplicates(),
        known.len() <= with_all_focus(known, added).len(),
        with_all_focus(known, added).take(known.len() as int) == known,
        forall|i: int|
            0 <= i < added.len() ==> with_all_focus(known, added).contains(#[trigger] added[i]),
    decreases added.len(),
{
    if added.len() == 0 {
        assert(known.take(known.len() as int) =~= known);
    } else {
        let before = added.drop_last();
        lemma_focus_paths_are_added_once(known, before);
        let earlier = with_all_focus(known, before);
        let after = with_all_focus(known, added);
        let last = added.last();
        if earlier.contains(last) {
            assert(after == earlier);
        } else {
            assert(after == earlier.push(last));
            assert(after[earlier.len() as int] == last);
            assert forall|i: int, j: int|
                0 <= i < after.len() && 0 <= j < after.len() && i != j implies after[i]
                != after[j] by {
                if i == earlier.len() {
                    assert(earlier.contains(earlier[j]));
                } else if j == earlier.len() {
                    assert(earlier.contains(earlier[i]));
                }
            }
            assert(after.take(known.len() as int) =~= earlier.take(known.len() as int));
        }
        assert forall|i: int| 0 <= i < added.len() implies after.contains(#[trigger] added[i]) by {
            if i < before.len() {
                assert(earlier.contains(before[i]));
                let k = choose|k: int| 0 <= k < earlier.len() && earlier[k] == before[i];
                assert(after[k] == added[i]);
            }
        }
    }
}

/// Adding what is known already changes nothing.
pub proof fn lemma_known_focus_paths_change_nothing(known: Seq<FocusView>, added: Seq<FocusView>)
    requires
        forall|i: int| 0 <= i < added.len() ==> known.contains(#[trigger] added[i]),
    ensures
        with_all_focus(known, added) == known,
    decreases added.len(),
{
    if added.len() > 0 {
        let before = added.drop_last();
        assert forall|i: int| 0 <= i < before.len() implies known.contains(#[trigger] before[i]) by {
            assert(before[i] == added[i]);
        }
        lemma_known_focus_paths_change_nothing(known, before);
    }
}

} // verus!
