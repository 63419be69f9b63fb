use notes_state::codec::{parse_legacy_str, parse_state_str, serialize_legacy, serialize_state};
use notes_state::migrate::{classify_manager_content, ManagerSchema};
use notes_state::model::{
    EditorSession, LocalFileRecord, NoteV1, PersistedState, SchemaVersion, SessionTab,
};

fn sample_state() -> PersistedState {
    PersistedState {
        recent_files: vec![
            LocalFileRecord {
                id: String::from("id-1"),
                filename: String::from("notes.md"),
                modified: 1700000000123,
                path: String::from("/home/u/notes.md"),
            },
            LocalFileRecord {
                id: String::from("id-2"),
                filename: String::from("todo.txt"),
                modified: 0,
                path: String::from("/home/u/todo.txt"),
            },
        ],
        session: EditorSession {
            tabs: vec![
                SessionTab {
                    id: String::from("t1"),
                    path: Some(String::from("/home/u/notes.md")),
                    filename: String::from("notes.md"),
                    is_dirty: false,
                    content: None,
                },
                SessionTab {
                    id: String::from("t2"),
                    path: None,
                    filename: String::from("untitled"),
                    is_dirty: true,
                    content: Some(String::from("draft \"quoted\" text\nwith\ttabs\\slashes")),
                },
            ],
            current_tab_id: Some(String::from("t1")),
        },
        schema_version: SchemaVersion::V2,
    }
}

#[test]
fn state_round_trip_returns_equal_value() {
    let st = sample_state();
    let text = serialize_state(&st);
    let back = parse_state_str(&text).expect("own serialization must parse");
    assert_eq!(back, st);
}

#[test]
fn empty_state_round_trip() {
    let st = PersistedState::fresh();
    let text = serialize_state(&st);
    assert_eq!(
        text,
        "{\"recentFiles\":{},\"session\":{\"tabs\":[],\"currentTabId\":null},\"schemaVersion\":\"V2\"}"
    );
    let back = parse_state_str(&text).expect("empty state must parse");
    assert_eq!(back, st);
}

#[test]
fn string_escapes_round_trip() {
    let mut st = PersistedState::fresh();
    st.session.tabs.push(SessionTab {
        id: String::from("q\"r\\s\nt\ru\tv"),
        path: None,
        filename: String::from("a\u{f1}o \u{1f600} emoji"),
        is_dirty: false,
        content: Some(String::from("line1\r\nline2")),
    });
    st.session.current_tab_id = Some(String::from("q\"r\\s\nt\ru\tv"));
    let text = serialize_state(&st);
    let back = parse_state_str(&text).expect("escaped state must parse");
    assert_eq!(back, st);
}

#[test]
fn legacy_round_trip_returns_equal_list() {
    let notes = vec![
        NoteV1 {
            title: String::from("First note"),
            tag: String::from("tag-1"),
            created_at: 11,
            updated_at: 22,
            file_extension: String::from("md"),
        },
        NoteV1 {
            title: String::from("Segunda: ma\u{f1}ana"),
            tag: String::from("tag-2"),
            created_at: 18446744073709551615,
            updated_at: 0,
            file_extension: String::from("txt"),
        },
    ];
    let text = serialize_legacy(&notes);
    let back = parse_legacy_str(&text).expect("own legacy serialization must parse");
    assert_eq!(back, notes);
}

#[test]
fn legacy_literal_parses() {
    let text = "[{\"title\":\"Hello\",\"tag\":\"abc\",\"createdAt\":5,\"updatedAt\":9,\"fileExtension\":\"md\"}]";
    let back = parse_legacy_str(text).expect("legacy literal must parse");
    assert_eq!(back.len(), 1);
    assert_eq!(back[0].title, "Hello");
    assert_eq!(back[0].tag, "abc");
    assert_eq!(back[0].created_at, 5);
    assert_eq!(back[0].updated_at, 9);
    assert_eq!(back[0].file_extension, "md");
}

#[test]
fn unparseable_bytes_parse_as_nothing() {
    assert!(parse_state_str("garbage").is_none());
    assert!(parse_state_str("").is_none());
    assert!(parse_legacy_str("{\"not\":\"an array\"}").is_none());
    assert!(parse_state_str("[1,2,3]").is_none());
    // trailing garbage after a complete document is rejected
    let tail = format!("{}x", serialize_state(&PersistedState::fresh()));
    assert!(parse_state_str(&tail).is_none());
}

#[test]
fn number_overflow_is_rejected() {
    // one more than u64::MAX in the createdAt field
    let text = "[{\"title\":\"t\",\"tag\":\"g\",\"createdAt\":18446744073709551616,\"updatedAt\":0,\"fileExtension\":\"md\"}]";
    assert!(parse_legacy_str(text).is_none());
}

#[test]
fn classify_current_legacy_and_unusable() {
    let current = serialize_state(&sample_state());
    assert_eq!(classify_manager_content(&current), ManagerSchema::Current);
    let legacy = serialize_legacy(&vec![NoteV1 {
        title: String::from("t"),
        tag: String::from("g"),
        created_at: 1,
        updated_at: 2,
        file_extension: String::from("md"),
    }]);
    assert_eq!(classify_manager_content(&legacy), ManagerSchema::Legacy);
    assert_eq!(classify_manager_content("[]"), ManagerSchema::Legacy);
    assert_eq!(
        classify_manager_content("random bytes"),
        ManagerSchema::Unrecognized
    );
    assert_eq!(classify_manager_content(""), ManagerSchema::Unrecognized);
}

#[test]
fn serialized_state_is_real_json() {
    let text = serialize_state(&sample_state());
    let value: serde_json::Value = serde_json::from_str(&text).expect("output must be valid JSON");
    assert_eq!(
        value.get("schemaVersion").and_then(|v| v.as_str()),
        Some("V2")
    );
    let tabs = value
        .get("session")
        .and_then(|s| s.get("tabs"))
        .and_then(|t| t.as_array())
        .expect("tabs array");
    assert_eq!(tabs.len(), 2);
    assert_eq!(tabs[0].get("isDirty").and_then(|v| v.as_bool()), Some(false));
    let recents = value
        .get("recentFiles")
        .and_then(|r| r.as_object())
        .expect("recentFiles object");
    assert!(recents.contains_key("/home/u/notes.md"));
}

#[test]
fn serialized_legacy_is_real_json() {
    let notes = vec![NoteV1 {
        title: String::from("A \"quoted\" title"),
        tag: String::from("g1"),
        created_at: 7,
        updated_at: 8,
        file_extension: String::from("txt"),
    }];
    let text = serialize_legacy(&notes);
    let value: serde_json::Value = serde_json::from_str(&text).expect("output must be valid JSON");
    let arr = value.as_array().expect("array");
    assert_eq!(arr.len(), 1);
    assert_eq!(
        arr[0].get("title").and_then(|v| v.as_str()),
        Some("A \"quoted\" title")
    );
    assert_eq!(arr[0].get("createdAt").and_then(|v| v.as_u64()), Some(7));
}
