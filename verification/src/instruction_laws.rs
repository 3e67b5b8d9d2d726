//! What holds of the instructions in AGENTS.md files: which files are looked
//! for, in what order they are read, and what the model is shown of them.

use vstd::prelude::*;

use crate::agents_md::{
    entry_sources, filled_user, first_directory, labeled_text, plain_text, EntryView, LoadedView,
    ProvenanceView, UserView,
};
use crate::choices::{is_choice, lemma_choice_step, lemma_no_choice, lemma_same_choice};
use crate::md_discovery::{
    all_entries, chain_len, docs_entries, names_with, paths_of, searched, EnvironmentDocs,
    FocusView,
};
use crate::md_imports::imports_of;
use crate::md_loader::{accepted, LoaderView, PendingView, TargetView};
use crate::md_manager::{with_all_focus, with_focus, ManagerView, RefreshMode, SelectionView};
use crate::split::join;
use crate::text::is_blank;
use crate::utf8_stream::lossy_text;

verus! {

/// Whether a fallback name is looked for: it is not empty, is none of the two
/// names that are always looked for, and stands there for the first time.
pub open spec fn is_new_name(fallbacks: Seq<Seq<char>>, i: int) -> bool {
    &&& fallbacks[i].len() > 0
    &&& fallbacks[i] != "AGENTS.override.md"@
    &&& fallbacks[i] != "AGENTS.md"@
    &&& forall|k: int| 0 <= k < i ==> #[trigger] fallbacks[k] != fallbacks[i]
}

/// Whether the chosen positions are those of the fallback names that are
/// looked for.
pub open spec fn chooses_names(at: Seq<int>, fallbacks: Seq<Seq<char>>) -> bool {
    is_choice(at, fallbacks.len() as int, |i: int| is_new_name(fallbacks, i))
}

proof fn lemma_known_names(fallbacks: Seq<Seq<char>>, name: Seq<char>)
    ensures
        names_with(fallbacks).contains(name) <==> name == "AGENTS.override.md"@ || name
            == "AGENTS.md"@ || (name.len() > 0 && fallbacks.contains(name)),
    decreases fallbacks.len(),
{
    let names = names_with(fallbacks);
    if fallbacks.len() == 0 {
        assert(names[0] == "AGENTS.override.md"@);
        assert(names[1] == "AGENTS.md"@);
    } else {
        let rest = fallbacks.drop_last();
        let before = names_with(rest);
        let last = fallbacks.last();
        lemma_known_names(rest, name);
        lemma_known_names(rest, last);
        assert(fallbacks =~= rest.push(last));
        if before.contains(name) {
            let k = choose|k: int| 0 <= k < before.len() && before[k] == name;
            assert(names[k] == name);
            if rest.contains(name) {
                let j = choose|j: int| 0 <= j < rest.len() && rest[j] == name;
                assert(fallbacks[j] == name);
            }
        } else {
            if names.contains(name) {
                let k = choose|k: int| 0 <= k < names.len() && names[k] == name;
                if k < before.len() {
                    assert(before[k] == name);
                }
                assert(fallbacks[rest.len() as int] == last);
            }
            if name.len() > 0 && fallbacks.contains(name) {
                let k = choose|k: int| 0 <= k < fallbacks.len() && fallbacks[k] == name;
                if k < rest.len() {
                    assert(rest[k] == name);
                }
                assert(names[before.len() as int] == name);
            }
        }
    }
}

proof fn lemma_name_places(fallbacks: Seq<Seq<char>>) -> (at: Seq<int>)
    ensures
        chooses_names(at, fallbacks),
        names_with(fallbacks) == seq!["AGENTS.override.md"@, "AGENTS.md"@] + Seq::new(
            at.len(),
            |j: int| fallbacks[at[j]],
        ),
    decreases fallbacks.len(),
{
    let chosen = |i: int| is_new_name(fallbacks, i);
    if fallbacks.len() == 0 {
        lemma_no_choice(chosen);
        let at = Seq::<int>::empty();
        assert(names_with(fallbacks) =~= seq!["AGENTS.override.md"@, "AGENTS.md"@] + Seq::new(
            at.len(),
            |j: int| fallbacks[at[j]],
        ));
        at
    } else {
        let rest = fallbacks.drop_last();
        let n = rest.len() as int;
        let last = fallbacks.last();
        let at = lemma_name_places(rest);
        let known = |i: int| is_new_name(rest, i);
        assert forall|i: int| 0 <= i < n implies #[trigger] known(i) == chosen(i) by {
            assert(rest[i] == fallbacks[i]);
            assert forall|k: int| 0 <= k < i implies rest[k] == fallbacks[k] by {}
            if known(i) {
                assert forall|k: int| 0 <= k < i implies #[trigger] fallbacks[k]
                    != fallbacks[i] by {
                    assert(rest[k] != rest[i]);
                }
            }
            if chosen(i) {
                assert forall|k: int| 0 <= k < i implies #[trigger] rest[k] != rest[i] by {
                    assert(fallbacks[k] != fallbacks[i]);
                }
            }
        }
        lemma_same_choice(at, n, known, chosen);
        lemma_choice_step(at, n, chosen);
        lemma_known_names(rest, last);
        if chosen(n) {
            if rest.contains(last) {
                let k = choose|k: int| 0 <= k < rest.len() && rest[k] == last;
                assert(fallbacks[k] == fallbacks[n]);
            }
            let more = at.push(n);
            assert(names_with(fallbacks) =~= seq!["AGENTS.override.md"@, "AGENTS.md"@] + Seq::new(
                more.len(),
                |j: int| fallbacks[more[j]],
            ));
            more
        } else {
            if last.len() > 0 && last != "AGENTS.override.md"@ && last != "AGENTS.md"@ {
                let k = choose|k: int| 0 <= k < n && fallbacks[k] == fallbacks[n];
                assert(rest[k] == last);
            }
            assert(names_with(fallbacks) =~= seq!["AGENTS.override.md"@, "AGENTS.md"@] + Seq::new(
                at.len(),
                |j: int| fallbacks[at[j]],
            ));
            at
        }
    }
}

/// In each directory the override is looked for, then the default name, then
/// every fallback name in its order, each once.
pub proof fn lemma_names_in_order(fallbacks: Seq<Seq<char>>)
    ensures
        exists|at: Seq<int>| #[trigger]
            chooses_names(at, fallbacks) && names_with(fallbacks) == seq![
                "AGENTS.override.md"@,
                "AGENTS.md"@,
            ] + Seq::new(at.len(), |j: int| fallbacks[at[j]]),
{
    let at = lemma_name_places(fallbacks);
}

proof fn lemma_chain(ancestors: Seq<Seq<char>>, root: Seq<char>, from: int, k: int)
    requires
        0 <= from <= k < ancestors.len(),
        ancestors[k] == root,
        forall|i: int| from <= i < k ==> #[trigger] ancestors[i] != root,
    ensures
        chain_len(ancestors, root, from) == k + 1,
    decreases k - from,
{
    if from < k {
        lemma_chain(ancestors, root, from + 1, k);
    }
}

/// From the project root, which is `k` directories up, the directories are
/// searched one after the other down to the directory itself. Without a root,
/// only the directory itself is.
pub proof fn lemma_searched_from_root_down(ancestors: Seq<Seq<char>>, k: int)
    requires
        0 <= k < ancestors.len(),
        forall|i: int| 0 <= i < k ==> #[trigger] ancestors[i] != ancestors[k],
    ensures
        searched(ancestors, Some(ancestors[k])).0 == ancestors[k],
        searched(ancestors, Some(ancestors[k])).1.len() == k + 1,
        forall|i: int|
            0 <= i <= k ==> #[trigger] searched(ancestors, Some(ancestors[k])).1[i]
                == ancestors[k - i],
        searched(ancestors, None) == (ancestors[0], seq![ancestors[0]]),
{
    lemma_chain(ancestors, ancestors[k], 0, k);
}

/// What the budget has room for is taken from the start of a file, and the
/// budget shrinks by as much.
pub proof fn lemma_budget_is_spent(view: LoaderView, data: Seq<u8>)
    ensures
        data.len() <= view.remaining ==> view.text_of(data) == lossy_text(data)
            && view.filled(data).remaining == view.remaining - data.len(),
        data.len() > view.remaining ==> view.text_of(data) == lossy_text(
            data.take(view.remaining as int),
        ) && view.filled(data).remaining == 0,
{
    if data.len() <= view.remaining {
        assert(data.take(data.len() as int) =~= data);
    }
}

/// A file that is not blank becomes the last entry, under its own path, and
/// what it imports is looked up unless four imports led to it. A blank file
/// leaves nothing.
pub proof fn lemma_file_becomes_entry(view: LoaderView, data: Seq<u8>)
    requires
        view.wf(),
        view.reading is Some,
    ensures
        ({
            let text = view.text_of(data);
            let after = view.filled(data);
            &&& after.reading is None
            &&& after.visited == view.visited
            &&& after.pending == view.pending
            &&& after.environment_id == view.environment_id
            &&& after.cwd == view.cwd
            &&& is_blank(text) ==> after.entries == view.entries && after.importing is None
                && view.imports(data).len() == 0
            &&& !is_blank(text) ==> {
                &&& after.entries == view.entries.push(
                    EntryView {
                        contents: text,
                        provenance: ProvenanceView::Project {
                            source_path: view.reading->0.path,
                            environment_id: view.environment_id,
                            cwd: view.cwd,
                        },
                    },
                )
                &&& view.reading->0.import_depth < 4 ==> view.imports(data) == imports_of(text)
                &&& view.reading->0.import_depth >= 4 ==> view.imports(data).len() == 0
                &&& after.importing == (if view.imports(data).len() > 0 {
                    view.reading
                } else {
                    None
                })
            }
        }),
{
}

/// The next file to be read is the topmost one that is pending and was not
/// read before; those above it are dropped, and those below it wait.
pub proof fn lemma_next_is_topmost(view: LoaderView, k: int)
    requires
        view.remaining > 0,
        0 <= k < view.pending.len(),
        !view.visited.contains(view.pending[k].path),
        forall|i: int|
            k < i < view.pending.len() ==> view.visited.contains(
                (#[trigger] view.pending[i]).path,
            ),
    ensures
        view.advanced() == (LoaderView {
            reading: Some(view.pending[k]),
            pending: view.pending.take(k),
            visited: view.visited.push(view.pending[k].path),
            ..view
        }),
    decreases view.pending.len(),
{
    if k + 1 < view.pending.len() {
        let rest = LoaderView { pending: view.pending.drop_last(), ..view };
        assert(view.visited.contains(view.pending[view.pending.len() - 1].path));
        lemma_next_is_topmost(rest, k);
        assert(rest.pending.take(k) =~= view.pending.take(k));
    } else {
        assert(view.pending.drop_last() =~= view.pending.take(k));
    }
}

/// Where the budget is spent, or everything that is pending was read, nothing
/// more is read.
pub proof fn lemma_nothing_is_left(view: LoaderView)
    requires
        view.remaining == 0 || forall|i: int|
            0 <= i < view.pending.len() ==> view.visited.contains(
                (#[trigger] view.pending[i]).path,
            ),
    ensures
        view.advanced() == (LoaderView { reading: None, pending: Seq::empty(), ..view }),
    decreases view.pending.len(),
{
    if view.remaining > 0 && view.pending.len() > 0 {
        let rest = LoaderView { pending: view.pending.drop_last(), ..view };
        assert(view.visited.contains(view.pending[view.pending.len() - 1].path));
        lemma_nothing_is_left(rest);
    }
}

/// Whether the chosen positions are those of the imports that lead below the
/// root.
pub open spec fn chooses_below_root(at: Seq<int>, targets: Seq<TargetView>) -> bool {
    is_choice(
        at,
        targets.len() as int,
        |i: int| targets[i] matches TargetView::Path { below_root, .. } && below_root,
    )
}

proof fn lemma_accepted_places(targets: Seq<TargetView>) -> (at: Seq<int>)
    ensures
        chooses_below_root(at, targets),
        accepted(targets) == Seq::new(at.len(), |j: int| targets[at[j]]->path),
    decreases targets.len(),
{
    let chosen = |i: int| targets[i] matches TargetView::Path { below_root, .. } && below_root;
    if targets.len() == 0 {
        lemma_no_choice(chosen);
        let at = Seq::<int>::empty();
        assert(accepted(targets) =~= Seq::new(at.len(), |j: int| targets[at[j]]->path));
        at
    } else {
        let rest = targets.drop_last();
        let n = rest.len() as int;
        let at = lemma_accepted_places(rest);
        let known = |i: int| rest[i] matches TargetView::Path { below_root, .. } && below_root;
        assert forall|i: int| 0 <= i < n implies #[trigger] known(i) == chosen(i) by {
            assert(rest[i] == targets[i]);
        }
        lemma_same_choice(at, n, known, chosen);
        lemma_choice_step(at, n, chosen);
        let more = if chosen(n) {
            at.push(n)
        } else {
            at
        };
        assert(accepted(targets) =~= Seq::new(more.len(), |j: int| targets[more[j]]->path));
        more
    }
}

/// Imports are read right after the file that holds them, in their order: they
/// are put on top of what waits, the first of them topmost, one import deeper.
/// An import that leads out of the project is not.
pub proof fn lemma_imports_are_put_on_top(view: LoaderView, targets: Seq<TargetView>)
    requires
        view.importing is Some,
    ensures
        exists|at: Seq<int>| #[trigger]
            chooses_below_root(at, targets) && view.imported(targets) == (LoaderView {
                importing: None,
                pending: view.pending + Seq::new(
                    at.len(),
                    |j: int|
                        PendingView {
                            path: targets[at[at.len() - 1 - j]]->path,
                            import_depth: view.importing->0.import_depth + 1,
                        },
                ),
                ..view
            }),
{
    let at = lemma_accepted_places(targets);
    assert(view.imported(targets).pending =~= view.pending + Seq::new(
        at.len(),
        |j: int|
            PendingView {
                path: targets[at[at.len() - 1 - j]]->path,
                import_depth: view.importing->0.import_depth + 1,
            },
    ));
}

/// Whether an entry stands behind its predecessor as its part of the text,
/// where no environment is named: the marker opens the instructions of the
/// project.
pub open spec fn is_plain_part(
    part: Seq<char>,
    user: Option<UserView>,
    entries: Seq<EntryView>,
    i: int,
) -> bool {
    let opens = entries[i].provenance is Project && (i == 0 || !(entries[i - 1].provenance is Project));
    &&& i == 0 && user is None ==> part == entries[i].contents
    &&& !(i == 0 && user is None) && opens ==> part == "\n\n--- project-doc ---\n\n"@
        + entries[i].contents
    &&& !(i == 0 && user is None) && !opens ==> part == "\n\n"@ + entries[i].contents
}

/// What names the environment of an entry.
pub open spec fn heading(entry: EntryView) -> Seq<char> {
    match entry.provenance {
        ProvenanceView::Project { source_path, environment_id, cwd } => "for `"@ + environment_id
            + "` with root "@ + cwd.native + "\n\n"@,
        ProvenanceView::Internal => Seq::empty(),
    }
}

/// Whether two entries come from one environment and one working directory.
pub open spec fn same_place(a: EntryView, b: EntryView) -> bool {
    &&& a.provenance is Project
    &&& b.provenance is Project
    &&& a.provenance->environment_id == b.provenance->environment_id
    &&& a.provenance->cwd.path == b.provenance->cwd.path
}

/// Whether an entry stands behind its predecessor as its part of the text,
/// where environments are named: the name stands wherever the place changes.
pub open spec fn is_named_part(
    part: Seq<char>,
    user: Option<UserView>,
    entries: Seq<EntryView>,
    i: int,
) -> bool {
    part == (if i == 0 && user is None {
        Seq::empty()
    } else {
        "\n\n"@
    }) + (if i > 0 && same_place(entries[i], entries[i - 1]) {
        Seq::empty()
    } else {
        heading(entries[i])
    }) + entries[i].contents
}

/// Whether entries come from different environments.
pub open spec fn spans_environments(entries: Seq<EntryView>) -> bool {
    exists|i: int, j: int|
        #![trigger entries[i], entries[j]]
        0 <= i < entries.len() && 0 <= j < entries.len() && entries[i].provenance is Project
            && entries[j].provenance is Project && entries[i].provenance->environment_id
            != entries[j].provenance->environment_id
}

/// Whether a text is that of instructions: the user's text, then every entry
/// in order.
pub open spec fn is_text_of(parts: Seq<Seq<char>>, loaded: LoadedView) -> bool {
    let user = loaded.user_instructions;
    &&& parts.len() == loaded.entries.len() + 1
    &&& parts[0] == match user {
        Some(user) => user.text,
        None => Seq::empty(),
    }
    &&& forall|k: int|
        1 <= k < parts.len() ==> {
            &&& spans_environments(loaded.entries) ==> is_named_part(
                #[trigger] parts[k],
                user,
                loaded.entries,
                k - 1,
            )
            &&& !spans_environments(loaded.entries) ==> is_plain_part(
                parts[k],
                user,
                loaded.entries,
                k - 1,
            )
        }
}

proof fn lemma_parts_of(
    user: Option<UserView>,
    entries: Seq<EntryView>,
    named: bool,
) -> (parts: Seq<Seq<char>>)
    ensures
        parts.len() == entries.len() + 1,
        parts[0] == match user {
            Some(user) => user.text,
            None => Seq::empty(),
        },
        forall|k: int|
            1 <= k < parts.len() ==> {
                &&& named ==> is_named_part(#[trigger] parts[k], user, entries, k - 1)
                &&& !named ==> is_plain_part(parts[k], user, entries, k - 1)
            },
        join(parts, Seq::empty()) == if named {
            labeled_text(user, entries)
        } else {
            plain_text(user, entries)
        },
    decreases entries.len(),
{
    let none = Seq::<char>::empty();
    if entries.len() == 0 {
        let parts = seq![
            match user {
                Some(user) => user.text,
                None => none,
            },
        ];
        assert(join(parts, none) == parts[0]);
        parts
    } else {
        let rest = entries.drop_last();
        let n = rest.len() as int;
        let before = lemma_parts_of(user, rest, named);
        let start = if named {
            labeled_text(user, rest)
        } else {
            plain_text(user, rest)
        };
        let whole = if named {
            labeled_text(user, entries)
        } else {
            plain_text(user, entries)
        };
        let part = whole.skip(start.len() as int);
        let parts = before.push(part);
        assert(whole =~= start + part);
        assert(parts.drop_last() =~= before);
        assert(join(parts, none) =~= join(before, none) + part);
        assert(entries[n] == entries.last());
        if named {
            let lead = if n == 0 && user is None {
                none
            } else {
                "\n\n"@
            };
            let name = if n > 0 && same_place(entries[n], entries[n - 1]) {
                none
            } else {
                heading(entries[n])
            };
            assert(entries[n].label() =~= heading(entries[n]));
            assert(whole =~= start + (lead + name) + entries[n].contents);
            assert(part =~= lead + name + entries[n].contents);
        } else {
            assert(is_plain_part(part, user, entries, n)) by {
                let opens = entries[n].provenance is Project && (n == 0 || !(entries[n
                    - 1].provenance is Project));
                let lead = if n == 0 && user is None {
                    none
                } else if opens {
                    "\n\n--- project-doc ---\n\n"@
                } else {
                    "\n\n"@
                };
                assert(whole =~= start + lead + entries[n].contents);
                assert(part =~= lead + entries[n].contents);
            }
        }
        assert forall|k: int| 1 <= k < parts.len() implies {
            &&& named ==> is_named_part(#[trigger] parts[k], user, entries, k - 1)
            &&& !named ==> is_plain_part(parts[k], user, entries, k - 1)
        } by {
            if k <= n {
                assert(parts[k] == before[k]);
                assert(rest[k - 1] == entries[k - 1]);
                if k > 1 {
                    assert(rest[k - 2] == entries[k - 2]);
                }
                assert(named ==> is_named_part(before[k], user, rest, k - 1));
            }
        }
        parts
    }
}

/// The model is shown the user's instructions and then every entry in order.
/// Where all are of one environment, the marker opens those of the project;
/// otherwise each environment is named where its entries begin.
pub proof fn lemma_instructions_are_shown_in_order(loaded: LoadedView)
    ensures
        exists|parts: Seq<Seq<char>>| #[trigger]
            is_text_of(parts, loaded) && loaded.text() == join(parts, Seq::empty()),
{
    let many = spans_environments(loaded.entries);
    if many {
        let (i, j) = choose|i: int, j: int|
            #![trigger loaded.entries[i], loaded.entries[j]]
            0 <= i < loaded.entries.len() && 0 <= j < loaded.entries.len()
                && loaded.entries[i].provenance is Project && loaded.entries[j].provenance is Project
                && loaded.entries[i].provenance->environment_id
                != loaded.entries[j].provenance->environment_id;
        if i < j {
            assert(loaded.entries[i].differs_in_environment(loaded.entries[j]));
        } else {
            assert(loaded.entries[j].differs_in_environment(loaded.entries[i]));
        }
    }
    let parts = lemma_parts_of(loaded.user_instructions, loaded.entries, many);
    assert(is_text_of(parts, loaded));
}

/// Whether the chosen positions are those of the entries of the project.
pub open spec fn chooses_project(at: Seq<int>, entries: Seq<EntryView>) -> bool {
    is_choice(at, entries.len() as int, |i: int| entries[i].provenance is Project)
}

proof fn lemma_source_places(entries: Seq<EntryView>) -> (at: Seq<int>)
    ensures
        chooses_project(at, entries),
        entry_sources(entries) == Seq::new(
            at.len(),
            |j: int| entries[at[j]].provenance->source_path,
        ),
    decreases entries.len(),
{
    let chosen = |i: int| entries[i].provenance is Project;
    if entries.len() == 0 {
        lemma_no_choice(chosen);
        let at = Seq::<int>::empty();
        assert(entry_sources(entries) =~= Seq::new(
            at.len(),
            |j: int| entries[at[j]].provenance->source_path,
        ));
        at
    } else {
        let rest = entries.drop_last();
        let n = rest.len() as int;
        let at = lemma_source_places(rest);
        let known = |i: int| rest[i].provenance is Project;
        assert forall|i: int| 0 <= i < n implies #[trigger] known(i) == chosen(i) by {
            assert(rest[i] == entries[i]);
        }
        lemma_same_choice(at, n, known, chosen);
        lemma_choice_step(at, n, chosen);
        let more = if chosen(n) {
            at.push(n)
        } else {
            at
        };
        assert(entry_sources(entries) =~= Seq::new(
            more.len(),
            |j: int| entries[more[j]].provenance->source_path,
        ));
        more
    }
}

/// The sources are the file of the user's instructions, where there are any,
/// and then that of every entry of the project, in order.
pub proof fn lemma_every_source_is_named(loaded: LoadedView)
    ensures
        exists|at: Seq<int>| #[trigger]
            chooses_project(at, loaded.entries) && loaded.sources() == (
            match loaded.user_instructions {
                Some(user) => seq![user.source],
                None => Seq::empty(),
            }) + Seq::new(at.len(), |j: int| loaded.entries[at[j]].provenance->source_path),
{
    let at = lemma_source_places(loaded.entries);
    assert(loaded.sources() =~= (match loaded.user_instructions {
        Some(user) => seq![user.source],
        None => Seq::empty(),
    }) + Seq::new(at.len(), |j: int| loaded.entries[at[j]].provenance->source_path));
}

/// Instructions of one environment hold for the working directory of their
/// first entry of the project; those of several hold for no single one.
pub proof fn lemma_directory_is_that_of_the_project(loaded: LoadedView, k: int)
    requires
        0 <= k < loaded.entries.len(),
        loaded.entries[k].provenance is Project,
        forall|i: int|
            0 <= i < k ==> (#[trigger] loaded.entries[i]).provenance is Internal,
    ensures
        !spans_environments(loaded.entries) ==> loaded.directory() == Some(
            loaded.entries[k].provenance->cwd.native,
        ),
        spans_environments(loaded.entries) ==> loaded.directory() is None,
{
    lemma_first_directory(loaded.entries, k);
    if spans_environments(loaded.entries) {
        let (i, j) = choose|i: int, j: int|
            #![trigger loaded.entries[i], loaded.entries[j]]
            0 <= i < loaded.entries.len() && 0 <= j < loaded.entries.len()
                && loaded.entries[i].provenance is Project && loaded.entries[j].provenance is Project
                && loaded.entries[i].provenance->environment_id
                != loaded.entries[j].provenance->environment_id;
        if i < j {
            assert(loaded.entries[i].differs_in_environment(loaded.entries[j]));
        } else {
            assert(loaded.entries[j].differs_in_environment(loaded.entries[i]));
        }
    }
}

proof fn lemma_first_directory(entries: Seq<EntryView>, k: int)
    requires
        0 <= k < entries.len(),
        entries[k].provenance is Project,
        forall|i: int| 0 <= i < k ==> (#[trigger] entries[i]).provenance is Internal,
    ensures
        first_directory(entries) == Some(entries[k].provenance->cwd.native),
    decreases k,
{
    if k > 0 {
        let rest = entries.skip(1);
        assert(entries[0].provenance is Internal);
        assert forall|i: int| 0 <= i < k - 1 implies (
        #[trigger] rest[i]).provenance is Internal by {
            assert(rest[i] == entries[i + 1]);
        }
        lemma_first_directory(rest, k - 1);
    }
}

/// Blank instructions of the user count as none; others are kept as they are.
pub proof fn lemma_user_instructions_are_kept(user: UserView)
    ensures
        is_blank(user.text) ==> filled_user(Some(user)) is None,
        !is_blank(user.text) ==> filled_user(Some(user)) == Some(user),
        filled_user(None) is None,
{
}

/// There is something to tell the model exactly where the user has instructions
/// or some entry is not blank.
pub proof fn lemma_something_is_told(loaded: LoadedView)
    ensures
        !loaded.is_empty() <==> loaded.user_instructions is Some || exists|i: int|
            0 <= i < loaded.entries.len() && !is_blank((#[trigger] loaded.entries[i]).contents),
{
}

/// A file that is not there leaves the loader as it was, but for what is read.
pub proof fn lemma_missing_file_leaves_nothing(view: LoaderView)
    ensures
        view.skipped() == (LoaderView { reading: None, ..view }),
{
}

/// The entries of environments stand in the order of the environments, and all
/// of them are kept.
pub proof fn lemma_environments_in_order(a: Seq<EnvironmentDocs>, b: Seq<EnvironmentDocs>)
    ensures
        all_entries(a + b) == all_entries(a) + all_entries(b),
        a.len() == 1 ==> all_entries(a) == match a[0] {
            EnvironmentDocs::Loaded(loaded) => loaded@.entries,
            EnvironmentDocs::Nothing => Seq::empty(),
            EnvironmentDocs::Failed => Seq::empty(),
        },
    decreases b.len(),
{
    if b.len() == 0 {
        assert(a + b =~= a);
        assert(all_entries(a) + all_entries(b) =~= all_entries(a));
    } else {
        lemma_environments_in_order(a, b.drop_last());
        assert((a + b).drop_last() =~= a + b.drop_last());
        assert(all_entries(a + b) =~= all_entries(a) + all_entries(b));
    }
    if a.len() == 1 {
        assert(all_entries(a.drop_last()) =~= Seq::<EntryView>::empty());
        assert(all_entries(a) =~= docs_entries(a[0]));
    }
}

/// Whether the chosen positions are those of the paths of an environment.
pub open spec fn chooses_environment(
    at: Seq<int>,
    focus: Seq<FocusView>,
    environment_id: Seq<char>,
) -> bool {
    is_choice(at, focus.len() as int, |i: int| focus[i].environment_id == environment_id)
}

proof fn lemma_focus_places(focus: Seq<FocusView>, environment_id: Seq<char>) -> (at: Seq<int>)
    ensures
        chooses_environment(at, focus, environment_id),
        paths_of(focus, environment_id) == Seq::new(at.len(), |j: int| focus[at[j]].path),
    decreases focus.len(),
{
    let chosen = |i: int| focus[i].environment_id == environment_id;
    if focus.len() == 0 {
        lemma_no_choice(chosen);
        let at = Seq::<int>::empty();
        assert(paths_of(focus, environment_id) =~= Seq::new(at.len(), |j: int| focus[at[j]].path));
        at
    } else {
        let rest = focus.drop_last();
        let n = rest.len() as int;
        let at = lemma_focus_places(rest, environment_id);
        let known = |i: int| rest[i].environment_id == environment_id;
        assert forall|i: int| 0 <= i < n implies #[trigger] known(i) == chosen(i) by {
            assert(rest[i] == focus[i]);
        }
        lemma_same_choice(at, n, known, chosen);
        lemma_choice_step(at, n, chosen);
        let more = if chosen(n) {
            at.push(n)
        } else {
            at
        };
        assert(paths_of(focus, environment_id) =~= Seq::new(
            more.len(),
            |j: int| focus[more[j]].path,
        ));
        more
    }
}

/// The paths of an environment are those of every focus path that names it, in
/// order.
pub proof fn lemma_focus_paths_of_environment(focus: Seq<FocusView>, environment_id: Seq<char>)
    ensures
        exists|at: Seq<int>| #[trigger]
            chooses_environment(at, focus, environment_id) && paths_of(focus, environment_id)
                == Seq::new(at.len(), |j: int| focus[at[j]].path),
{
    let at = lemma_focus_places(focus, environment_id);
}

/// Whether the chosen positions are those of the paths that are new: not known,
/// and not added before.
pub open spec fn chooses_unknown(
    at: Seq<int>,
    known: Seq<FocusView>,
    added: Seq<FocusView>,
) -> bool {
    is_choice(
        at,
        added.len() as int,
        |i: int| !known.contains(added[i]) && !added.take(i).contains(added[i]),
    )
}

proof fn lemma_focus_union(known: Seq<FocusView>, added: Seq<FocusView>, path: FocusView)
    ensures
        with_all_focus(known, added).contains(path) <==> known.contains(path) || added.contains(
            path,
        ),
    decreases added.len(),
{
    if added.len() > 0 {
        let rest = added.drop_last();
        let last = added.last();
        let before = with_all_focus(known, rest);
        lemma_focus_union(known, rest, path);
        assert(added =~= rest.push(last));
        if before.contains(path) {
            let k = choose|k: int| 0 <= k < before.len() && before[k] == path;
            assert(with_focus(before, last)[k] == path);
            if rest.contains(path) {
                let j = choose|j: int| 0 <= j < rest.len() && rest[j] == path;
                assert(added[j] == path);
            }
        } else {
            if path == last {
                assert(added[rest.len() as int] == path);
                assert(before.push(last)[before.len() as int] == path);
            }
            if with_focus(before, last).contains(path) {
                let k = choose|k: int|
                    0 <= k < with_focus(before, last).len() && with_focus(before, last)[k] == path;
                if k < before.len() {
                    assert(before[k] == path);
                }
            }
            if added.contains(path) {
                let k = choose|k: int| 0 <= k < added.len() && added[k] == path;
                if k < rest.len() {
                    assert(rest[k] == path);
                }
            }
        }
    }
}

proof fn lemma_unknown_places(known: Seq<FocusView>, added: Seq<FocusView>) -> (at: Seq<int>)
    ensures
        chooses_unknown(at, known, added),
        with_all_focus(known, added) == known + Seq::new(at.len(), |j: int| added[at[j]]),
    decreases added.len(),
{
    let chosen = |i: int| !known.contains(added[i]) && !added.take(i).contains(added[i]);
    if added.len() == 0 {
        lemma_no_choice(chosen);
        let at = Seq::<int>::empty();
        assert(with_all_focus(known, added) =~= known + Seq::new(at.len(), |j: int| added[at[j]]));
        at
    } else {
        let rest = added.drop_last();
        let n = rest.len() as int;
        let at = lemma_unknown_places(known, rest);
        let before = |i: int| !known.contains(rest[i]) && !rest.take(i).contains(rest[i]);
        assert forall|i: int| 0 <= i < n implies #[trigger] before(i) == chosen(i) by {
            assert(rest[i] == added[i]);
            assert(rest.take(i) =~= added.take(i));
        }
        lemma_same_choice(at, n, before, chosen);
        lemma_choice_step(at, n, chosen);
        lemma_focus_union(known, rest, added.last());
        assert(rest =~= added.take(n));
        let more = if chosen(n) {
            at.push(n)
        } else {
            at
        };
        assert(with_all_focus(known, added) =~= known + Seq::new(
            more.len(),
            |j: int| added[more[j]],
        ));
        more
    }
}

/// What was known stays where it is, and every new path follows once, in
/// order; nothing else is added.
pub proof fn lemma_focus_paths_are_appended(known: Seq<FocusView>, added: Seq<FocusView>)
    ensures
        exists|at: Seq<int>| #[trigger]
            chooses_unknown(at, known, added) && with_all_focus(known, added) == known + Seq::new(
                at.len(),
                |j: int| added[at[j]],
            ),
{
    let at = lemma_unknown_places(known, added);
}

/// After instructions were loaded for selections and paths, the same are not
/// loaded again unless that is forced, and anything else is.
pub proof fn lemma_loads_where_something_changed(
    manager: ManagerView,
    selections: Seq<SelectionView>,
    focus_paths: Seq<FocusView>,
    loaded: Option<LoadedView>,
    others: Seq<SelectionView>,
    other_paths: Seq<FocusView>,
)
    ensures
        ({
            let after = manager.refreshed(selections, focus_paths, loaded);
            &&& after.loaded == loaded
            &&& after.user_instructions == manager.user_instructions
            &&& after.needs_load(others, other_paths, RefreshMode::Force)
            &&& after.needs_load(others, other_paths, RefreshMode::IfSelectionChanged) <==> !(others
                == selections && other_paths == focus_paths)
        }),
{
}

} // verus!
