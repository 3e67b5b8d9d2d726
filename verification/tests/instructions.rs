use codex_link::agents_md::{
    InstructionEntry, InstructionProvenance, LoadedAgentsMd, UserInstructions, WorkingDirectory,
    DEFAULT_AGENTS_MD_FILENAME, LOCAL_AGENTS_MD_FILENAME,
};
use codex_link::md_discovery::{
    candidate_filenames, environment_focus_paths, focus_parent_step, focus_step,
    load_project_instructions, project_root_markers, search_directories, AgentsMdFocusPath,
    AgentsMdScan, EnvironmentDocs, FocusStep, MarkerSetting,
};
use codex_link::md_imports::extract_agents_md_imports;
use codex_link::md_loader::{import_base, AgentsMdLoader, ImportTarget, PathKind};
use codex_link::md_manager::{AgentsMdManager, RefreshMode, TurnEnvironmentSelection};
use codex_link::md_reader::{AgentsMdReader, ReadStep, RootScan};

fn texts(values: &[&str]) -> Vec<String> {
    values.iter().map(|value| value.to_string()).collect()
}

fn cwd(path: &str) -> WorkingDirectory {
    WorkingDirectory {
        path: format!("file://{path}"),
        native: path.to_string(),
    }
}

fn entry(contents: &str, environment_id: &str, directory: &str) -> InstructionEntry {
    InstructionEntry {
        contents: contents.to_string(),
        provenance: InstructionProvenance::Project {
            source_path: format!("file://{directory}/AGENTS.md"),
            environment_id: environment_id.to_string(),
            cwd: cwd(directory),
        },
    }
}

fn user(text: &str) -> UserInstructions {
    UserInstructions {
        text: text.to_string(),
        source: "file:///home/AGENTS.md".to_string(),
    }
}

#[test]
fn imports_are_mentions_outside_code() {
    let contents = "\
See @docs/a.md, and (@b.md).\n\
Mail me@example.com or ask @maintainer.\n\
`@in/code.md` but @after/code.md\n\
```\n@fenced.md\n```\n\
~~~sh\n@tilde.md\n~~~\n\
@https://example.com/x and @./c.md; \"@d/e.md\"\n\
@win\\path #@not.md";
    assert_eq!(
        extract_agents_md_imports(contents),
        vec![
            "docs/a.md",
            "b.md",
            "after/code.md",
            "./c.md",
            "d/e.md",
            "win\\path"
        ]
    );
}

#[test]
fn blank_user_instructions_do_not_count() {
    let blank = LoadedAgentsMd::new_user(" \n".to_string(), "file:///a".to_string());
    assert!(blank.is_empty());
    assert_eq!(blank.text(), "");
    assert!(blank.sources().is_empty());
    let told = LoadedAgentsMd::new_user("be brief".to_string(), "file:///a".to_string());
    assert_eq!(told.text(), "be brief");
    assert_eq!(told.sources(), vec!["file:///a"]);
    assert_eq!(
        LoadedAgentsMd::from_text_for_testing("x".to_string()).text(),
        "x"
    );
    assert!(LoadedAgentsMd::from_text_for_testing(" ".to_string()).is_empty());
}

#[test]
fn one_environment_has_one_marker_and_a_directory() {
    let loaded = LoadedAgentsMd {
        user_instructions: Some(user("be brief")),
        entries: vec![entry("root", "local", "/repo"), entry("sub", "local", "/repo/a")],
    };
    assert_eq!(
        loaded.text(),
        "be brief\n\n--- project-doc ---\n\nroot\n\nsub"
    );
    assert_eq!(
        loaded.contextual_user_fragment().directory.as_deref(),
        Some("/repo")
    );
    assert_eq!(
        loaded.sources(),
        vec![
            "file:///home/AGENTS.md",
            "file:///repo/AGENTS.md",
            "file:///repo/a/AGENTS.md"
        ]
    );
}

#[test]
fn several_environments_are_each_named_once() {
    let loaded = LoadedAgentsMd {
        user_instructions: None,
        entries: vec![
            entry("one", "local", "/repo"),
            entry("two", "local", "/repo"),
            entry("three", "remote", "/srv"),
        ],
    };
    assert_eq!(
        loaded.text(),
        "for `local` with root /repo\n\none\n\ntwo\n\nfor `remote` with root /srv\n\nthree"
    );
    let fragment = loaded.contextual_user_fragment();
    assert_eq!(fragment.directory, None);
    assert_eq!(fragment.text, loaded.text());
}

#[test]
fn the_override_is_preferred() {
    let names = candidate_filenames(&texts(&["", "NOTES.md", "AGENTS.md", "NOTES.md"]));
    assert_eq!(
        names,
        vec![
            LOCAL_AGENTS_MD_FILENAME,
            DEFAULT_AGENTS_MD_FILENAME,
            "NOTES.md"
        ]
    );
}

#[test]
fn the_root_comes_first() {
    let ancestors = texts(&["/r/a/b", "/r/a", "/r", "/"]);
    let (root, directories) = search_directories(&ancestors, &Some("/r".to_string()));
    assert_eq!(root, "/r");
    assert_eq!(directories, vec!["/r", "/r/a", "/r/a/b"]);
    let (root, directories) = search_directories(&ancestors, &None);
    assert_eq!(root, "/r/a/b");
    assert_eq!(directories, vec!["/r/a/b"]);
}

#[test]
fn markers_fall_back_to_the_default() {
    let default = || texts(&[".git"]);
    assert_eq!(project_root_markers(MarkerSetting::Unset, default()), default());
    assert_eq!(project_root_markers(MarkerSetting::Invalid, default()), default());
    assert_eq!(
        project_root_markers(MarkerSetting::Markers(texts(&[".hg"])), default()),
        vec![".hg"]
    );
}

#[test]
fn a_scan_takes_the_first_file_of_each_directory() {
    let files = ["/r/AGENTS.md", "/r/a/AGENTS.override.md", "/r/a/AGENTS.md"];
    let mut scan = AgentsMdScan::new(texts(&["/r", "/r/a", "/r/a/b"]), candidate_filenames(&vec![]));
    let mut asked = 0;
    while let Some((directory, name)) = scan.next_probe() {
        asked += 1;
        let path = format!("{directory}/{name}");
        let kind = if files.contains(&path.as_str()) {
            PathKind::File
        } else {
            PathKind::NotFound
        };
        assert!(scan.on_probe(&path, kind));
    }
    assert_eq!(asked, 5);
    assert_eq!(
        scan.into_found(),
        vec!["/r/AGENTS.md", "/r/a/AGENTS.override.md"]
    );
    let mut failing = AgentsMdScan::new(texts(&["/r"]), texts(&["x"]));
    assert!(!failing.on_probe("/r/x", PathKind::Failed));
}

fn resolve(source: &str, import: &str) -> ImportTarget {
    if import.contains(' ') {
        return ImportTarget::Invalid;
    }
    let directory = &source[..source.rfind('/').unwrap_or(0)];
    ImportTarget::Path {
        path: format!("{directory}/{import}"),
        below_root: !import.starts_with(".."),
    }
}

fn load(max_bytes: u64, files: &[(&str, &str)], found: &[&str]) -> AgentsMdLoader {
    let mut loader = AgentsMdLoader::new("local", &cwd("/r"), max_bytes);
    for path in found {
        loader.start(path);
        while let Some(path) = loader.next_path() {
            match files.iter().find(|file| file.0 == path) {
                Some((_, contents)) => {
                    let imports = loader.on_contents(contents.as_bytes());
                    if !imports.is_empty() {
                        let targets = imports
                            .iter()
                            .map(|import| resolve(&path, import))
                            .collect();
                        loader.on_imports(targets);
                    }
                }
                None => loader.skip(),
            }
        }
    }
    loader
}

fn read_paths(loader: AgentsMdLoader) -> Vec<String> {
    match loader.finish() {
        Some(loaded) => loaded.sources(),
        None => Vec::new(),
    }
}

#[test]
fn imports_are_read_directly_after_their_file_and_once() {
    let files = [
        ("/r/AGENTS.md", "@a.md then @b.md and @../out.md"),
        ("/r/a.md", "@c.md @AGENTS.md"),
        ("/r/b.md", "@c.md"),
        ("/r/c.md", "leaf"),
        ("/r/../out.md", "never"),
        ("/r/s/AGENTS.md", " \n"),
    ];
    assert_eq!(
        read_paths(load(1_000, &files, &["/r/AGENTS.md", "/r/s/AGENTS.md", "/r/c.md"])),
        vec!["/r/AGENTS.md", "/r/a.md", "/r/c.md", "/r/b.md"]
    );
}

#[test]
fn imports_start_from_the_directory_of_their_file() {
    assert_eq!(import_base(Some("/r/a".to_string()), "/r"), "/r/a");
    assert_eq!(import_base(None, "/r"), "/r");
}

#[test]
fn imports_are_followed_only_so_far() {
    let files = [
        ("/0.md", "@1.md"),
        ("/1.md", "@2.md"),
        ("/2.md", "@3.md"),
        ("/3.md", "@4.md"),
        ("/4.md", "@5.md"),
        ("/5.md", "too deep"),
    ];
    assert_eq!(
        read_paths(load(1_000, &files, &["/0.md"])),
        vec!["/0.md", "/1.md", "/2.md", "/3.md", "/4.md"]
    );
}

#[test]
fn the_budget_cuts_and_ends_the_reading() {
    let files = [("/a.md", "0123456789"), ("/b.md", "never")];
    let loader = load(4, &files, &["/a.md", "/b.md"]);
    assert!(!loader.has_budget());
    let loaded = loader.finish().expect("something was read");
    assert_eq!(loaded.text(), "0123");
    assert_eq!(loaded.sources(), vec!["/a.md"]);
    assert!(load(0, &files, &["/a.md"]).finish().is_none());
}

#[test]
fn a_focus_path_leads_to_a_directory() {
    let parent = || Some("/r/a".to_string());
    assert!(matches!(
        focus_step("/r/a", PathKind::Directory, None),
        FocusStep::Directory(directory) if directory == "/r/a"
    ));
    assert!(matches!(
        focus_step("/r/a/x.rs", PathKind::File, parent()),
        FocusStep::Directory(directory) if directory == "/r/a"
    ));
    assert!(matches!(
        focus_step("/r/a/new.rs", PathKind::NotFound, parent()),
        FocusStep::AskParent(directory) if directory == "/r/a"
    ));
    assert!(matches!(focus_step("/", PathKind::NotFound, None), FocusStep::Skip));
    assert!(matches!(focus_step("/x", PathKind::Other, parent()), FocusStep::Skip));
    assert!(matches!(focus_step("/x", PathKind::Failed, parent()), FocusStep::Fail));
    assert!(matches!(
        focus_parent_step("/r/a".to_string(), PathKind::Directory),
        FocusStep::Directory(directory) if directory == "/r/a"
    ));
    assert!(matches!(
        focus_parent_step("/r/a".to_string(), PathKind::File),
        FocusStep::Skip
    ));
    let found = || Some("/r/a".to_string());
    assert_eq!(AgentsMdReader::focus_directory(found(), true), found());
    assert_eq!(AgentsMdReader::focus_directory(found(), false), None);
    assert_eq!(AgentsMdReader::focus_directory(None, true), None);
}

fn read_all(reader: &mut AgentsMdReader, contents: &str) {
    while reader.loader.next_path().is_some() {
        reader.loader.on_contents(contents.as_bytes());
    }
}

#[test]
fn files_are_read_from_the_root_down_and_then_for_the_task() {
    let focus = texts(&["/r/a/x.rs", "/r/other/y.rs", "/r/b"]);
    let mut reader = AgentsMdReader::new("local", &cwd("/r"), 20, focus).expect("a budget");
    reader.on_discovery("/r".to_string(), texts(&["/r/AGENTS.md", "/r/s/AGENTS.md"]));
    for file in ["/r/AGENTS.md", "/r/s/AGENTS.md"] {
        assert!(matches!(reader.next_step(), ReadStep::File(path) if path == file));
        read_all(&mut reader, "12345");
    }
    assert!(matches!(reader.next_step(), ReadStep::Focus(path) if path == "/r/a/x.rs"));
    reader.on_focus_discovery("/r", texts(&["/r/AGENTS.md", "/r/a/AGENTS.md"]));
    for file in ["/r/AGENTS.md", "/r/a/AGENTS.md"] {
        assert!(matches!(reader.next_step(), ReadStep::File(path) if path == file));
        read_all(&mut reader, "1234567");
    }
    assert!(matches!(reader.next_step(), ReadStep::Focus(path) if path == "/r/other/y.rs"));
    reader.on_focus_discovery("/r/other", texts(&["/r/other/AGENTS.md"]));
    assert!(matches!(reader.next_step(), ReadStep::Focus(path) if path == "/r/b"));
    reader.on_focus_discovery("/r", texts(&["/r/b/AGENTS.md"]));
    assert!(matches!(reader.next_step(), ReadStep::File(path) if path == "/r/b/AGENTS.md"));
    read_all(&mut reader, "1234567");
    assert!(matches!(reader.next_step(), ReadStep::Done));
    assert_eq!(
        reader.finish().expect("files were read").sources(),
        vec!["/r/AGENTS.md", "/r/s/AGENTS.md", "/r/a/AGENTS.md", "/r/b/AGENTS.md"]
    );
}

#[test]
fn a_spent_budget_ends_the_reading() {
    assert!(AgentsMdReader::new("local", &cwd("/r"), 0, Vec::new()).is_none());
    let mut reader =
        AgentsMdReader::new("local", &cwd("/r"), 5, texts(&["/r/a"])).expect("a budget");
    reader.on_discovery("/r".to_string(), texts(&["/r/AGENTS.md"]));
    assert!(matches!(reader.next_step(), ReadStep::File(_)));
    read_all(&mut reader, "12345");
    assert!(matches!(reader.next_step(), ReadStep::Done));
}

#[test]
fn the_root_is_the_nearest_directory_with_a_marker() {
    let ancestors = || texts(&["/r/a/b", "/r/a", "/r", "/"]);
    let nearest = |markers: &[&str], existing: &[&str]| {
        let mut scan = RootScan::new(ancestors(), texts(markers));
        while let Some((directory, marker)) = scan.next_probe() {
            let path = format!("{directory}/{marker}");
            let kind = if existing.contains(&path.as_str()) {
                PathKind::Directory
            } else {
                PathKind::NotFound
            };
            assert!(scan.on_probe(kind));
        }
        scan.into_root()
    };
    let both = [".git", ".hg"];
    assert_eq!(nearest(&both, &["/r/.git", "/r/a/.hg"]).as_deref(), Some("/r/a"));
    assert_eq!(nearest(&[".git"], &["/r/.git", "/r/a/.hg"]).as_deref(), Some("/r"));
    assert_eq!(nearest(&both, &[]), None);
    assert_eq!(nearest(&[], &["/r/.git"]), None);
    let mut scan = RootScan::new(ancestors(), texts(&both));
    assert!(!scan.on_probe(PathKind::Failed));
}

fn focus(environment_id: &str, path: &str) -> AgentsMdFocusPath {
    AgentsMdFocusPath {
        environment_id: environment_id.to_string(),
        path: path.to_string(),
    }
}

#[test]
fn focus_paths_belong_to_an_environment() {
    let paths = vec![focus("local", "/a"), focus("remote", "/b"), focus("local", "/c")];
    assert_eq!(environment_focus_paths(&paths, "local"), vec!["/a", "/c"]);
}

#[test]
fn instructions_of_all_environments_are_put_together() {
    let docs = |contents: &str, environment_id: &str| {
        EnvironmentDocs::Loaded(LoadedAgentsMd {
            user_instructions: None,
            entries: vec![entry(contents, environment_id, "/repo")],
        })
    };
    let loaded = load_project_instructions(
        Some(user("be brief")),
        vec![
            docs("one", "local"),
            EnvironmentDocs::Failed,
            EnvironmentDocs::Nothing,
            docs("two", "remote"),
        ],
    )
    .expect("there are instructions");
    assert_eq!(loaded.entries.len(), 2);
    assert!(loaded.text().starts_with("be brief\n\nfor `local`"));
    assert!(load_project_instructions(Some(user(" ")), vec![EnvironmentDocs::Nothing]).is_none());
}

fn selections(cwd: &str) -> Vec<TurnEnvironmentSelection> {
    vec![TurnEnvironmentSelection {
        environment_id: "local".to_string(),
        cwd: cwd.to_string(),
    }]
}

#[test]
fn instructions_are_loaded_when_something_changed() {
    let mode = RefreshMode::IfSelectionChanged;
    let mut manager = AgentsMdManager::new(Some(user("be brief")));
    assert!(manager.needs_load(&selections("/a"), &Vec::new(), mode));
    let loaded = LoadedAgentsMd::from_user_instructions(manager.user_instructions());
    manager.complete_refresh(selections("/a"), Vec::new(), Some(loaded));
    assert!(!manager.needs_load(&selections("/a"), &Vec::new(), mode));
    assert!(manager.needs_load(&selections("/b"), &Vec::new(), mode));
    assert!(manager.needs_load(&selections("/a"), &Vec::new(), RefreshMode::Force));
    assert!(manager.needs_load(&selections("/a"), &vec![focus("local", "/x")], mode));
    let text = manager.get_loaded().as_ref().map(|loaded| loaded.text());
    assert_eq!(text.as_deref(), Some("be brief"));
    assert!(AgentsMdManager::new(Some(user("\n"))).user_instructions().is_none());
}

#[test]
fn focus_paths_are_added_once() {
    let mut manager = AgentsMdManager::new(None);
    assert!(manager.add_focus_paths(&Vec::new()).is_none());
    let added = manager
        .add_focus_paths(&vec![focus("l", "/a"), focus("l", "/a"), focus("m", "/a")])
        .expect("paths were added");
    assert_eq!(added.len(), 2);
    manager.complete_refresh(Vec::new(), added, None);
    let again = manager
        .add_focus_paths(&vec![focus("m", "/a")])
        .expect("paths were added");
    assert_eq!(again.len(), 2);
    assert_eq!(manager.focus_paths().len(), 2);
}
