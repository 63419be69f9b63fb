use notes_state::cipher::{decrypt_spanish_caesar, encrypt_spanish_caesar};
use notes_state::files::{build_file_info, detect_line_ending, extract_extension};
use notes_state::model::NoteV1;
use notes_state::notes::{
    build_note_file_name, DatabaseV2, NoteError, NotesManager, NoteType, NoteV2,
};

fn v1(title: &str, tag: &str, ext: &str) -> NoteV1 {
    NoteV1 {
        title: String::from(title),
        tag: String::from(tag),
        created_at: 10,
        updated_at: 20,
        file_extension: String::from(ext),
    }
}

fn v2(id: &str, title: &str) -> NoteV2 {
    NoteV2 {
        id: String::from(id),
        title: String::from(title),
        created_at: 1,
        updated_at: 2,
        access_control: None,
        is_favorite: false,
        tags: Vec::new(),
        note_type: NoteType::TXT,
    }
}

#[test]
fn caesar_encrypts_lowercase_with_shift_23() {
    assert_eq!(encrypt_spanish_caesar("abc"), "wxy");
    assert_eq!(decrypt_spanish_caesar("wxy"), "abc");
}

#[test]
fn caesar_wraps_through_the_ene() {
    // the e\u{f1}e sits between n and o in the 27-letter alphabet
    assert_eq!(encrypt_spanish_caesar("\u{f1}"), "k");
    assert_eq!(decrypt_spanish_caesar("k"), "\u{f1}");
    assert_eq!(encrypt_spanish_caesar("k"), "g");
}

#[test]
fn caesar_keeps_case_and_other_characters() {
    assert_eq!(encrypt_spanish_caesar("Hola, Mundo 123!"), "Dlhw, Iqjzl 123!");
    assert_eq!(decrypt_spanish_caesar("Dlhw, Iqjzl 123!"), "Hola, Mundo 123!");
}

#[test]
fn caesar_round_trips_text_without_capital_r() {
    let text = "El veloz murci\u{e9}lago hind\u{fa} com\u{ed}a feliz cardillo y kiwi. 42";
    assert_eq!(decrypt_spanish_caesar(&encrypt_spanish_caesar(text)), text);
}

#[test]
fn capital_r_loses_its_case() {
    // R shifts onto the e\u{f1}e, which has no ASCII capital
    assert_eq!(encrypt_spanish_caesar("R"), "\u{f1}");
    assert_eq!(decrypt_spanish_caesar("\u{f1}"), "r");
}

#[test]
fn line_endings_are_classified() {
    assert_eq!(detect_line_ending("no breaks"), "N/A");
    assert_eq!(detect_line_ending("a\nb\nc"), "LF");
    assert_eq!(detect_line_ending("a\r\nb\r\n"), "CRLF");
    assert_eq!(detect_line_ending("a\r\nb\nc"), "Mixed");
    assert_eq!(detect_line_ending(""), "N/A");
}

#[test]
fn extensions_are_extracted() {
    assert_eq!(extract_extension("/home/u/notes.md"), "md");
    assert_eq!(extract_extension("archive.tar.gz"), "gz");
    assert_eq!(extract_extension("/home/u/Makefile"), "");
    assert_eq!(extract_extension("/home/u/.hidden"), "");
    assert_eq!(extract_extension("dir.with.dots/plain"), "");
}

#[test]
fn file_info_is_assembled() {
    let info = build_file_info("one\r\ntwo", "/tmp/a.txt", 8);
    assert_eq!(info.line_ending, "CRLF");
    assert_eq!(info.encoding, "UTF-8");
    assert_eq!(info.file_size, 8);
    assert_eq!(info.extension, "txt");
}

#[test]
fn note_file_names_are_built_from_tag_and_extension() {
    assert_eq!(
        build_note_file_name(&String::from("tag9"), &String::from("md")),
        "tag9.md"
    );
}

#[test]
fn note_type_follows_the_extension() {
    assert!(matches!(NoteType::from_file_extension("md"), NoteType::MD));
    assert!(matches!(NoteType::from_file_extension("txt"), NoteType::TXT));
    assert!(matches!(NoteType::from_file_extension(""), NoteType::TXT));
}

#[test]
fn note_errors_carry_their_parts() {
    let e = NoteError::new("message", "reason", "method");
    assert_eq!(e.message, "message");
    assert_eq!(e.reason, "reason");
    assert_eq!(e.method, "method");
}

#[test]
fn migrate_from_v1_converts_and_keys_by_tag() {
    let db = DatabaseV2::migrate_from_v1(vec![v1("One", "tag1", "md"), v1("Two", "tag2", "txt")]);
    assert_eq!(db.notes.len(), 2);
    assert_eq!(db.notes[0].id, "tag1");
    assert_eq!(db.notes[0].title, "One");
    assert_eq!(db.notes[0].created_at, 10);
    assert_eq!(db.notes[0].updated_at, 20);
    assert!(matches!(db.notes[0].note_type, NoteType::MD));
    assert!(db.notes[0].access_control.is_none());
    assert!(!db.notes[0].is_favorite);
    assert!(db.notes[0].tags.is_empty());
    assert!(matches!(db.notes[1].note_type, NoteType::TXT));
}

#[test]
fn migrate_from_v1_keeps_the_last_of_a_repeated_tag() {
    let db = DatabaseV2::migrate_from_v1(vec![v1("Old", "tag1", "md"), v1("New", "tag1", "txt")]);
    assert_eq!(db.notes.len(), 1);
    assert_eq!(db.notes[0].title, "New");
}

#[test]
fn database_insert_and_remove() {
    let mut db = DatabaseV2::empty();
    db.insert_note(v2("a", "Alpha"));
    db.insert_note(v2("b", "Beta"));
    assert_eq!(db.note_count(), 2);
    // inserting an existing id replaces in place
    db.insert_note(v2("a", "Alpha II"));
    assert_eq!(db.note_count(), 2);
    assert_eq!(db.notes[0].title, "Alpha II");
    assert!(db.remove_note(&String::from("a")));
    assert_eq!(db.note_count(), 1);
    assert!(!db.remove_note(&String::from("zz")));
}

#[test]
fn database_lookup_by_id() {
    let mut db = DatabaseV2::empty();
    db.insert_note(v2("a", "Alpha"));
    let found = db.get_note(&String::from("a")).expect("note must be there");
    assert_eq!(found.title, "Alpha");
    assert!(db.get_note(&String::from("zz")).is_none());
}

#[test]
fn database_edit_and_favorite() {
    let mut db = DatabaseV2::empty();
    db.insert_note(v2("a", "Alpha"));
    assert!(db.set_title(&String::from("a"), "Renamed", 999));
    assert_eq!(db.notes[0].title, "Renamed");
    assert_eq!(db.notes[0].updated_at, 999);
    assert!(!db.set_title(&String::from("missing"), "X", 1));
    assert!(db.toggle_favorite(&String::from("a"), false));
    assert!(db.notes[0].is_favorite);
}

#[test]
fn database_search_folds_case() {
    let mut db = DatabaseV2::empty();
    db.insert_note(v2("a", "Shopping List"));
    db.insert_note(v2("b", "Holiday plan"));
    db.insert_note(v2("c", "listless"));
    let hits = db.search_notes("LIST");
    assert_eq!(hits.len(), 2);
    assert_eq!(hits[0].id, "a");
    assert_eq!(hits[1].id, "c");
    assert_eq!(db.search_notes("zzz").len(), 0);
}

#[test]
fn create_note_assigns_fresh_ids_and_timestamps() {
    let mut db = DatabaseV2::empty();
    let id1 = db.create_note(notes_state::notes::NoteEntry {
        title: String::from("Draft"),
        content: String::from("text"),
        note_type: NoteType::MD,
    });
    let id2 = db.create_note(notes_state::notes::NoteEntry {
        title: String::from("Other"),
        content: String::from("text"),
        note_type: NoteType::TXT,
    });
    assert_eq!(id1.len(), 36);
    assert_eq!(id2.len(), 36);
    assert_ne!(id1, id2);
    assert_eq!(db.note_count(), 2);
    assert_eq!(db.notes[0].title, "Draft");
    assert_eq!(db.notes[0].id, id1);
    assert_eq!(db.notes[0].created_at, db.notes[0].updated_at);
    assert!(db.notes[0].created_at > 0);
}

#[test]
fn passwords_protect_and_verify() {
    let mut db = DatabaseV2::empty();
    db.insert_note(v2("a", "Secret"));
    // an unprotected note never verifies
    assert!(!db.verify_note_password(&String::from("a"), "pw"));
    assert!(db.protect_note(&String::from("a"), "correct horse"));
    assert!(db.notes[0].access_control.is_some());
    assert!(db.verify_note_password(&String::from("a"), "correct horse"));
    assert!(!db.verify_note_password(&String::from("a"), "wrong"));
    assert!(!db.verify_note_password(&String::from("missing"), "correct horse"));
    // a missing note cannot be protected
    assert!(!db.protect_note(&String::from("missing"), "pw"));
}

#[test]
fn manager_list_reads_and_finds() {
    let text = notes_state::codec::serialize_legacy(&vec![v1("One", "tag1", "md"), v1("Two", "tag2", "txt")]);
    let all = NotesManager::read_notes_metadata(Some(&text)).unwrap();
    assert_eq!(all.len(), 2);
    assert_eq!(all[0].title, "One");
    let found = NotesManager::read_note_metadata(&text, &String::from("tag2")).unwrap();
    assert_eq!(found.title, "Two");
    assert!(NotesManager::read_note_metadata(&text, &String::from("zz")).is_err());
    assert!(NotesManager::read_notes_metadata(Some("broken")).is_err());
    assert_eq!(NotesManager::read_notes_metadata(None).unwrap().len(), 0);
}

#[test]
fn manager_list_appends_edits_and_removes() {
    let start = NotesManager::write_note_metadata(
        None,
        &String::from("tag1"),
        &String::from("One"),
        &String::from("md"),
        50,
    )
    .unwrap();
    let two = NotesManager::write_note_metadata(
        Some(&start),
        &String::from("tag2"),
        &String::from("Two"),
        &String::from("txt"),
        60,
    )
    .unwrap();
    let all = NotesManager::read_notes_metadata(Some(&two)).unwrap();
    assert_eq!(all.len(), 2);
    assert_eq!(all[0].created_at, 50);
    assert_eq!(all[1].created_at, 60);

    let edited = NotesManager::edit_note_metadata(&two, &String::from("tag1"), &String::from("One B"), 70)
        .unwrap();
    let all = NotesManager::read_notes_metadata(Some(&edited)).unwrap();
    assert_eq!(all[0].title, "One B");
    assert_eq!(all[0].updated_at, 70);
    assert_eq!(all[0].created_at, 50);
    assert!(NotesManager::edit_note_metadata(&two, &String::from("zz"), &String::from("X"), 1).is_err());

    let removed = NotesManager::remove_note_metadata(&edited, &String::from("tag1")).unwrap();
    let all = NotesManager::read_notes_metadata(Some(&removed)).unwrap();
    assert_eq!(all.len(), 1);
    assert_eq!(all[0].tag, "tag2");
}

#[test]
fn manager_list_search_folds_case() {
    let text = notes_state::codec::serialize_legacy(&vec![
        v1("Shopping List", "t1", "md"),
        v1("holiday", "t2", "md"),
    ]);
    let hits = NotesManager::search_notes_metadata(&text, "LIST").unwrap();
    assert_eq!(hits.len(), 1);
    assert_eq!(hits[0].tag, "t1");
}

#[test]
fn note_content_files_round_trip() {
    let dir = tempfile::TempDir::new().unwrap();
    let path = format!("{}/n1.md", dir.path().to_str().unwrap());
    NotesManager::write_note(path.clone(), String::from("hello")).unwrap();
    assert_eq!(NotesManager::read_note_content(path.clone()).unwrap(), "hello");
    NotesManager::edit_note_content(path.clone(), String::from("bye")).unwrap();
    assert_eq!(NotesManager::read_note_content(path.clone()).unwrap(), "bye");
    NotesManager::remove_note(path.clone()).unwrap();
    assert!(NotesManager::read_note_content(path).is_err());
}
