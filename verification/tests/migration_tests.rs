use notes_state::atomic::{atomic_write, StoreError};
use notes_state::codec::serialize_legacy;
use notes_state::manager::{check_for_migration, load_state, migrate_v1_to_v2, AppDirs, MigrationError};
use notes_state::model::NoteV1;
use notes_state::sanitize::sanitize_title;

fn note(title: &str, tag: &str, ext: &str) -> NoteV1 {
    NoteV1 {
        title: String::from(title),
        tag: String::from(tag),
        created_at: 100,
        updated_at: 200,
        file_extension: String::from(ext),
    }
}

fn make_dirs(data: &tempfile::TempDir, legacy: &tempfile::TempDir) -> AppDirs {
    AppDirs::new(
        data.path().to_str().unwrap(),
        legacy.path().to_str().unwrap(),
    )
}

#[test]
fn sanitize_replaces_reserved_characters() {
    assert_eq!(sanitize_title("a/b:c"), "a_b_c");
    assert_eq!(
        sanitize_title("<note> \"with\" every|bad?char*\\here/"),
        "_note_ _with_ every_bad_char__here_"
    );
}

#[test]
fn sanitize_falls_back_to_placeholder() {
    assert_eq!(sanitize_title("..."), "untitled");
    assert_eq!(sanitize_title(""), "untitled");
    assert_eq!(sanitize_title("  \t\r\n.. "), "untitled");
}

#[test]
fn sanitize_trims_both_ends() {
    assert_eq!(sanitize_title("  draft. "), "draft");
    assert_eq!(sanitize_title(".hidden."), "hidden");
    assert_eq!(sanitize_title("inner . dot"), "inner . dot");
}

#[test]
fn migration_skips_records_without_backing_files() {
    let data = tempfile::TempDir::new().unwrap();
    let legacy = tempfile::TempDir::new().unwrap();
    let dirs = make_dirs(&data, &legacy);
    let notes = vec![
        note("First", "tag1", "md"),
        note("Second", "tag2", "txt"),
        note("Third", "tag3", "md"),
    ];
    atomic_write(&dirs.legacy_manager_path, &serialize_legacy(&notes)).unwrap();
    // backing files exist for the first two records only
    atomic_write(&format!("{}/tag1.md", dirs.legacy_data_dir), "one").unwrap();
    atomic_write(&format!("{}/tag2.txt", dirs.legacy_data_dir), "two").unwrap();

    assert!(check_for_migration(&dirs));
    let summary = migrate_v1_to_v2(&dirs).expect("migration must succeed");
    assert_eq!(summary.migrated, 2);
    assert_eq!(summary.skipped, 1);

    let st = load_state(&dirs);
    assert_eq!(st.recent_files.len(), 2);
    let paths: Vec<&str> = st.recent_files.iter().map(|r| r.path.as_str()).collect();
    assert!(paths.contains(&format!("{}/First.md", dirs.data_dir).as_str()));
    assert!(paths.contains(&format!("{}/Second.txt", dirs.data_dir).as_str()));
    // the copied files hold the original content
    assert_eq!(
        notes_state::notes::NotesManager::read_note_content(format!(
            "{}/First.md",
            dirs.data_dir
        ))
        .unwrap(),
        "one"
    );
}

#[test]
fn migration_sanitizes_destination_names() {
    let data = tempfile::TempDir::new().unwrap();
    let legacy = tempfile::TempDir::new().unwrap();
    let dirs = make_dirs(&data, &legacy);
    let notes = vec![note("a/b:c", "tag1", "md")];
    atomic_write(&dirs.legacy_manager_path, &serialize_legacy(&notes)).unwrap();
    atomic_write(&format!("{}/tag1.md", dirs.legacy_data_dir), "body").unwrap();
    let summary = migrate_v1_to_v2(&dirs).expect("migration must succeed");
    assert_eq!(summary.migrated, 1);
    let st = load_state(&dirs);
    assert_eq!(st.recent_files.len(), 1);
    assert_eq!(st.recent_files[0].filename, "a_b_c.md");
    // the record carries the destination's real modification time
    assert!(st.recent_files[0].modified > 0);
    assert_eq!(st.recent_files[0].path, format!("{}/a_b_c.md", dirs.data_dir));
    assert_eq!(st.recent_files[0].id, "tag1");
}

#[test]
fn migration_is_a_no_op_after_success() {
    let data = tempfile::TempDir::new().unwrap();
    let legacy = tempfile::TempDir::new().unwrap();
    let dirs = make_dirs(&data, &legacy);
    let notes = vec![note("Only", "tag1", "md")];
    atomic_write(&dirs.legacy_manager_path, &serialize_legacy(&notes)).unwrap();
    atomic_write(&format!("{}/tag1.md", dirs.legacy_data_dir), "x").unwrap();
    assert!(check_for_migration(&dirs));
    migrate_v1_to_v2(&dirs).expect("migration must succeed");
    // detection now finds the current-schema file
    assert!(!check_for_migration(&dirs));
}

#[test]
fn migration_reports_unreadable_and_unparseable_legacy_data() {
    let data = tempfile::TempDir::new().unwrap();
    let legacy = tempfile::TempDir::new().unwrap();
    let dirs = make_dirs(&data, &legacy);
    assert_eq!(migrate_v1_to_v2(&dirs), Err(MigrationError::LegacyUnreadable));
    atomic_write(&dirs.legacy_manager_path, "not json at all").unwrap();
    assert_eq!(migrate_v1_to_v2(&dirs), Err(MigrationError::LegacyUnparseable));
    // unparseable legacy data also means no migration is offered
    assert!(!check_for_migration(&dirs));
}

#[test]
fn migration_cleans_up_the_legacy_directory() {
    let data = tempfile::TempDir::new().unwrap();
    let legacy = tempfile::TempDir::new().unwrap();
    let dirs = make_dirs(&data, &legacy);
    let notes = vec![note("Only", "tag1", "md")];
    atomic_write(&dirs.legacy_manager_path, &serialize_legacy(&notes)).unwrap();
    atomic_write(&format!("{}/tag1.md", dirs.legacy_data_dir), "x").unwrap();
    let summary = migrate_v1_to_v2(&dirs).expect("migration must succeed");
    assert_eq!(summary.cleanup_warning, None);
    // the legacy manager file is gone with its directory
    assert!(notes_state::notes::NotesManager::read_note_content(dirs.legacy_manager_path.clone())
        .is_err());
    // the copy survived in the new data directory
    assert_eq!(
        notes_state::notes::NotesManager::read_note_content(format!("{}/Only.md", dirs.data_dir))
            .unwrap(),
        "x"
    );
}

#[test]
fn check_for_migration_false_without_any_file() {
    let data = tempfile::TempDir::new().unwrap();
    let legacy = tempfile::TempDir::new().unwrap();
    let dirs = make_dirs(&data, &legacy);
    assert!(!check_for_migration(&dirs));
}

#[test]
fn atomic_write_rejects_a_bare_file_name() {
    assert_eq!(atomic_write("no-parent-here", "content"), Err(StoreError::InvalidPath));
}

#[test]
fn error_categories_carry_messages() {
    assert_eq!(
        StoreError::InvalidPath.describe(),
        "the destination path has no parent directory"
    );
    assert_eq!(
        MigrationError::LegacyUnparseable.describe(),
        "the legacy manager file does not hold a legacy note array"
    );
}

#[test]
fn atomic_write_reports_io_failure() {
    let root = tempfile::TempDir::new().unwrap();
    let missing = format!("{}/absent-dir/file.txt", root.path().to_str().unwrap());
    assert_eq!(atomic_write(&missing, "content"), Err(StoreError::Io));
}

#[test]
fn atomic_write_replaces_content_completely() {
    let root = tempfile::TempDir::new().unwrap();
    let path = format!("{}/f.txt", root.path().to_str().unwrap());
    atomic_write(&path, "first version").unwrap();
    atomic_write(&path, "second").unwrap();
    let read = notes_state::notes::NotesManager::read_note_content(path).unwrap();
    assert_eq!(read, "second");
}

#[test]
fn interrupted_atomic_write_leaves_destination_intact() {
    let root = tempfile::TempDir::new().unwrap();
    let path = format!("{}/f.txt", root.path().to_str().unwrap());
    atomic_write(&path, "prior content").unwrap();
    // simulate a write interrupted after temporary-file creation but before
    // the final replace: the temporary file is filled and then abandoned
    {
        let mut temp = tempfile::NamedTempFile::new_in(root.path()).unwrap();
        std::io::Write::write_all(temp.as_file_mut(), b"half-written new content").unwrap();
        // dropped here without persisting
    }
    let read = notes_state::notes::NotesManager::read_note_content(path).unwrap();
    assert_eq!(read, "prior content");
}
