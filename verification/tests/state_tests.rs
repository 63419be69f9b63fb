use notes_state::atomic::atomic_write;
use notes_state::manager::{interpret_manager_content, load_state, save_state, AppDirs};
use notes_state::migrate::migration_needed;
use notes_state::model::{
    EditorSession, LocalFileRecord, PersistedState, SchemaVersion, SessionTab,
};
use notes_state::validate::{apply_validation, referenced_paths};

fn tab(id: &str, path: Option<String>) -> SessionTab {
    SessionTab {
        id: String::from(id),
        path: path.clone(),
        filename: String::from("f"),
        is_dirty: false,
        content: if path.is_none() {
            Some(String::from("inline text"))
        } else {
            None
        },
    }
}

#[test]
fn validation_prunes_missing_tab_and_repairs_selection() {
    // tabs [{id:"t1", path:"/missing"}, {id:"t2", path:null}], current "t1"
    let mut st = PersistedState {
        recent_files: Vec::new(),
        session: EditorSession {
            tabs: vec![
                tab("t1", Some(String::from("/missing"))),
                tab("t2", None),
            ],
            current_tab_id: Some(String::from("t1")),
        },
        schema_version: SchemaVersion::V2,
    };
    let paths = vec![String::from("/missing")];
    let mask = vec![false];
    apply_validation(&mut st, &paths, &mask);
    assert_eq!(st.session.tabs.len(), 1);
    assert_eq!(st.session.tabs[0].id, "t2");
    assert_eq!(st.session.tabs[0].path, None);
    assert_eq!(st.session.current_tab_id, Some(String::from("t2")));
}

#[test]
fn validation_keeps_confirmed_paths_and_selection() {
    let mut st = PersistedState {
        recent_files: vec![LocalFileRecord {
            id: String::from("r1"),
            filename: String::from("a.md"),
            modified: 5,
            path: String::from("/kept/a.md"),
        }],
        session: EditorSession {
            tabs: vec![tab("t1", Some(String::from("/kept/a.md")))],
            current_tab_id: Some(String::from("t1")),
        },
        schema_version: SchemaVersion::V2,
    };
    let expected = st.clone();
    let paths = vec![String::from("/kept/a.md")];
    let mask = vec![true];
    apply_validation(&mut st, &paths, &mask);
    assert_eq!(st, expected);
}

#[test]
fn validation_prunes_stale_recent_files() {
    let mut st = PersistedState {
        recent_files: vec![
            LocalFileRecord {
                id: String::from("r1"),
                filename: String::from("a.md"),
                modified: 5,
                path: String::from("/kept/a.md"),
            },
            LocalFileRecord {
                id: String::from("r2"),
                filename: String::from("b.md"),
                modified: 6,
                path: String::from("/gone/b.md"),
            },
        ],
        session: EditorSession { tabs: Vec::new(), current_tab_id: None },
        schema_version: SchemaVersion::V2,
    };
    let paths = vec![String::from("/kept/a.md"), String::from("/gone/b.md")];
    let mask = vec![true, false];
    apply_validation(&mut st, &paths, &mask);
    assert_eq!(st.recent_files.len(), 1);
    assert_eq!(st.recent_files[0].path, "/kept/a.md");
    assert_eq!(st.session.current_tab_id, None);
}

#[test]
fn referenced_paths_deduplicates() {
    let st = PersistedState {
        recent_files: vec![LocalFileRecord {
            id: String::from("r1"),
            filename: String::from("a.md"),
            modified: 5,
            path: String::from("/x/a.md"),
        }],
        session: EditorSession {
            tabs: vec![
                tab("t1", Some(String::from("/x/a.md"))),
                tab("t2", Some(String::from("/x/b.md"))),
                tab("t3", None),
            ],
            current_tab_id: None,
        },
        schema_version: SchemaVersion::V2,
    };
    let paths = referenced_paths(&st);
    assert_eq!(paths.len(), 2);
    assert!(paths.contains(&String::from("/x/a.md")));
    assert!(paths.contains(&String::from("/x/b.md")));
}

#[test]
fn save_then_load_returns_equal_state_when_paths_exist() {
    let data = tempfile::TempDir::new().unwrap();
    let legacy = tempfile::TempDir::new().unwrap();
    let dirs = AppDirs::new(
        data.path().to_str().unwrap(),
        legacy.path().to_str().unwrap(),
    );
    // a real file that both a tab and a recent-file record reference
    let file_path = format!("{}/notes.md", dirs.data_dir);
    atomic_write(&file_path, "note body").unwrap();
    let st = PersistedState {
        recent_files: vec![LocalFileRecord {
            id: String::from("r1"),
            filename: String::from("notes.md"),
            modified: 1234,
            path: file_path.clone(),
        }],
        session: EditorSession {
            tabs: vec![tab("t1", Some(file_path)), tab("t2", None)],
            current_tab_id: Some(String::from("t2")),
        },
        schema_version: SchemaVersion::V2,
    };
    save_state(&dirs, &st).unwrap();
    let loaded = load_state(&dirs);
    assert_eq!(loaded, st);
}

#[test]
fn manager_content_interpretation_recovers() {
    assert_eq!(interpret_manager_content(None), PersistedState::fresh());
    assert_eq!(interpret_manager_content(Some("junk")), PersistedState::fresh());
    let good = notes_state::codec::serialize_state(&PersistedState::fresh());
    assert_eq!(interpret_manager_content(Some(&good)), PersistedState::fresh());
}

#[test]
fn detection_rule_on_values() {
    // an existing current-schema manager file always wins
    assert!(!migration_needed(true, Some("[]")));
    // otherwise a readable legacy array calls for migration
    assert!(migration_needed(false, Some("[]")));
    assert!(!migration_needed(false, Some("junk")));
    assert!(!migration_needed(false, None));
    let current = notes_state::codec::serialize_state(&PersistedState::fresh());
    assert!(!migration_needed(false, Some(&current)));
}

#[test]
fn load_returns_fresh_state_without_a_manager_file() {
    let data = tempfile::TempDir::new().unwrap();
    let legacy = tempfile::TempDir::new().unwrap();
    let dirs = AppDirs::new(
        data.path().to_str().unwrap(),
        legacy.path().to_str().unwrap(),
    );
    let st = load_state(&dirs);
    assert_eq!(st, PersistedState::fresh());
}

#[test]
fn load_recovers_from_corrupted_state() {
    let data = tempfile::TempDir::new().unwrap();
    let legacy = tempfile::TempDir::new().unwrap();
    let dirs = AppDirs::new(
        data.path().to_str().unwrap(),
        legacy.path().to_str().unwrap(),
    );
    atomic_write(&dirs.manager_path, "{ totally broken").unwrap();
    let st = load_state(&dirs);
    assert_eq!(st, PersistedState::fresh());
}

#[test]
fn load_treats_legacy_content_as_unusable() {
    // a manager file still holding the legacy array is a schema mismatch for
    // load: it falls back to a fresh state instead of failing
    let data = tempfile::TempDir::new().unwrap();
    let legacy = tempfile::TempDir::new().unwrap();
    let dirs = AppDirs::new(
        data.path().to_str().unwrap(),
        legacy.path().to_str().unwrap(),
    );
    atomic_write(
        &dirs.manager_path,
        "[{\"title\":\"t\",\"tag\":\"g\",\"createdAt\":1,\"updatedAt\":2,\"fileExtension\":\"md\"}]",
    )
    .unwrap();
    assert_eq!(load_state(&dirs), PersistedState::fresh());
}

#[test]
fn load_prunes_dangling_references() {
    let data = tempfile::TempDir::new().unwrap();
    let legacy = tempfile::TempDir::new().unwrap();
    let dirs = AppDirs::new(
        data.path().to_str().unwrap(),
        legacy.path().to_str().unwrap(),
    );
    let real = format!("{}/real.md", dirs.data_dir);
    atomic_write(&real, "x").unwrap();
    let st = PersistedState {
        recent_files: vec![
            LocalFileRecord {
                id: String::from("r1"),
                filename: String::from("real.md"),
                modified: 1,
                path: real.clone(),
            },
            LocalFileRecord {
                id: String::from("r2"),
                filename: String::from("ghost.md"),
                modified: 2,
                path: format!("{}/ghost.md", dirs.data_dir),
            },
        ],
        session: EditorSession {
            tabs: vec![
                tab("t1", Some(format!("{}/ghost.md", dirs.data_dir))),
                tab("t2", Some(real.clone())),
            ],
            current_tab_id: Some(String::from("t1")),
        },
        schema_version: SchemaVersion::V2,
    };
    save_state(&dirs, &st).unwrap();
    let loaded = load_state(&dirs);
    assert_eq!(loaded.recent_files.len(), 1);
    assert_eq!(loaded.recent_files[0].path, real);
    assert_eq!(loaded.session.tabs.len(), 1);
    assert_eq!(loaded.session.tabs[0].id, "t2");
    // the selection moved to the first surviving tab
    assert_eq!(loaded.session.current_tab_id, Some(String::from("t2")));
}
