//! Data model of the persisted state: the current schema (recent files plus
//! editor session), the legacy schema read by migration, and the notes
//! database kept by the surrounding commands.

use vstd::prelude::*;

verus! {

/// Version tag stored in the current-schema manager file.
#[derive(Clone, Copy, Debug, PartialEq, Eq, Structural)]
pub enum SchemaVersion {
    V2,
}

/// Metadata for one previously opened file, keyed in `recent_files` by its
/// own `path`.
#[derive(Clone, Debug, PartialEq, Eq)]
pub struct LocalFileRecord {
    pub id: String,
    pub filename: String,
    pub modified: u64,
    pub path: String,
}

pub ghost struct LocalFileRecordV {
    pub id: Seq<char>,
    pub filename: Seq<char>,
    pub modified: u64,
    pub path: Seq<char>,
}

impl View for LocalFileRecord {
    type V = LocalFileRecordV;

    open spec fn view(&self) -> LocalFileRecordV {
        LocalFileRecordV {
            id: self.id@,
            filename: self.filename@,
            modified: self.modified,
            path: self.path@,
        }
    }
}

/// One editor tab.  An untitled tab has no `path` and carries its text in
/// `content`; a tab with a `path` loads its text from that file.
#[derive(Clone, Debug, PartialEq, Eq)]
pub struct SessionTab {
    pub id: String,
    pub path: Option<String>,
    pub filename: String,
    pub is_dirty: bool,
    pub content: Option<String>,
}

pub ghost struct SessionTabV {
    pub id: Seq<char>,
    pub path: Option<Seq<char>>,
    pub filename: Seq<char>,
    pub is_dirty: bool,
    pub content: Option<Seq<char>>,
}

impl View for SessionTab {
    type V = SessionTabV;

    open spec fn view(&self) -> SessionTabV {
        SessionTabV {
            id: self.id@,
            path: match self.path {
                Some(p) => Some(p@),
                None => None,
            },
            filename: self.filename@,
            is_dirty: self.is_dirty,
            content: match self.content {
                Some(c) => Some(c@),
                None => None,
            },
        }
    }
}

/// The open tabs in order, plus the id of the selected tab, if any.
#[derive(Clone, Debug, PartialEq, Eq)]
pub struct EditorSession {
    pub tabs: Vec<SessionTab>,
    pub current_tab_id: Option<String>,
}

pub ghost struct EditorSessionV {
    pub tabs: Seq<SessionTabV>,
    pub current_tab_id: Option<Seq<char>>,
}

/// The element-wise view of a tab vector.
pub open spec fn tabs_view(ts: Seq<SessionTab>) -> Seq<SessionTabV> {
    Seq::new(ts.len(), |i: int| ts[i]@)
}

/// The element-wise view of a recent-file record vector.
pub open spec fn records_view(rs: Seq<LocalFileRecord>) -> Seq<LocalFileRecordV> {
    Seq::new(rs.len(), |i: int| rs[i]@)
}

/// The element-wise view of a legacy note-record vector.
pub open spec fn notes_view(ns: Seq<NoteV1>) -> Seq<NoteV1V> {
    Seq::new(ns.len(), |i: int| ns[i]@)
}

impl View for EditorSession {
    type V = EditorSessionV;

    open spec fn view(&self) -> EditorSessionV {
        EditorSessionV {
            tabs: tabs_view(self.tabs@),
            current_tab_id: match self.current_tab_id {
                Some(id) => Some(id@),
                None => None,
            },
        }
    }
}

/// The whole current-schema document: everything the application persists.
#[derive(Clone, Debug, PartialEq, Eq)]
pub struct PersistedState {
    pub recent_files: Vec<LocalFileRecord>,
    pub session: EditorSession,
    pub schema_version: SchemaVersion,
}

pub ghost struct PersistedStateV {
    pub recent_files: Seq<LocalFileRecordV>,
    pub session: EditorSessionV,
    pub schema_version: SchemaVersion,
}

impl View for PersistedState {
    type V = PersistedStateV;

    open spec fn view(&self) -> PersistedStateV {
        PersistedStateV {
            recent_files: records_view(self.recent_files@),
            session: self.session@,
            schema_version: self.schema_version,
        }
    }
}

/// A tab may carry inline `content` only when it has no backing `path`.
pub open spec fn tab_wf(t: SessionTabV) -> bool {
    t.content is Some ==> t.path is None
}

/// Every tab is well formed and a set `current_tab_id` names one of the tabs.
pub open spec fn session_wf(s: EditorSessionV) -> bool {
    &&& forall|i: int| 0 <= i < s.tabs.len() ==> tab_wf(#[trigger] s.tabs[i])
    &&& s.current_tab_id is Some ==> exists|i: int|
        0 <= i < s.tabs.len() && (#[trigger] s.tabs[i]).id == s.current_tab_id->0
}

/// Recent-file records have pairwise distinct paths: the sequence stands for
/// a map keyed by each record's own path.
pub open spec fn recent_files_wf(rs: Seq<LocalFileRecordV>) -> bool {
    forall|i: int, j: int| 0 <= i < j < rs.len() ==> (#[trigger] rs[i]).path != (#[trigger] rs[j]).path
}

pub open spec fn state_wf(s: PersistedStateV) -> bool {
    session_wf(s.session) && recent_files_wf(s.recent_files)
}

/// The state used when no manager file exists or its content is unusable.
pub open spec fn fresh_state() -> PersistedStateV {
    PersistedStateV {
        recent_files: Seq::empty(),
        session: EditorSessionV { tabs: Seq::empty(), current_tab_id: None },
        schema_version: SchemaVersion::V2,
    }
}

impl PersistedState {
    /// A fresh, all-empty current-schema state.
    pub fn fresh() -> (r: PersistedState)
        ensures
            r@ == fresh_state(),
            state_wf(r@),
    {
        let r = PersistedState {
            recent_files: Vec::new(),
            session: EditorSession { tabs: Vec::new(), current_tab_id: None },
            schema_version: SchemaVersion::V2,
        };
        proof {
            assert(r@.recent_files =~= fresh_state().recent_files);
            assert(r@.session.tabs =~= fresh_state().session.tabs);
        }
        r
    }
}

/// A copy of an optional string whose view is known to be unchanged.
pub fn clone_opt_string(o: &Option<String>) -> (r: Option<String>)
    ensures
        r is Some <==> *o is Some,
        r is Some ==> r->0@ == (*o)->0@,
{
    match o {
        Some(s) => Some(s.clone()),
        None => None,
    }
}

impl SessionTab {
    /// A copy with the same view.
    pub fn duplicate(&self) -> (r: SessionTab)
        ensures
            r@ == self@,
    {
        let r = SessionTab {
            id: self.id.clone(),
            path: clone_opt_string(&self.path),
            filename: self.filename.clone(),
            is_dirty: self.is_dirty,
            content: clone_opt_string(&self.content),
        };
        proof {
            assert(r@.path == self@.path);
            assert(r@.content == self@.content);
        }
        r
    }
}

impl LocalFileRecord {
    /// A copy with the same view.
    pub fn duplicate(&self) -> (r: LocalFileRecord)
        ensures
            r@ == self@,
    {
        LocalFileRecord {
            id: self.id.clone(),
            filename: self.filename.clone(),
            modified: self.modified,
            path: self.path.clone(),
        }
    }
}

/// One record of the legacy (prior) schema: a JSON array of these, with one
/// physical note file per record named `{tag}.{file_extension}` in the legacy
/// data directory.
#[derive(Clone, Debug, PartialEq, Eq)]
pub struct NoteV1 {
    pub title: String,
    pub tag: String,
    pub created_at: u64,
    pub updated_at: u64,
    pub file_extension: String,
}

pub ghost struct NoteV1V {
    pub title: Seq<char>,
    pub tag: Seq<char>,
    pub created_at: u64,
    pub updated_at: u64,
    pub file_extension: Seq<char>,
}

impl View for NoteV1 {
    type V = NoteV1V;

    open spec fn view(&self) -> NoteV1V {
        NoteV1V {
            title: self.title@,
            tag: self.tag@,
            created_at: self.created_at,
            updated_at: self.updated_at,
            file_extension: self.file_extension@,
        }
    }
}

/// Metadata entry of the flat notes-manager list; same shape as `NoteV1`.
#[derive(Clone, Debug, PartialEq, Eq)]
pub struct NoteMetadata {
    pub title: String,
    pub tag: String,
    pub created_at: u64,
    pub updated_at: u64,
    pub file_extension: String,
}

pub ghost struct NoteMetadataV {
    pub title: Seq<char>,
    pub tag: Seq<char>,
    pub created_at: u64,
    pub updated_at: u64,
    pub file_extension: Seq<char>,
}

impl View for NoteMetadata {
    type V = NoteMetadataV;

    open spec fn view(&self) -> NoteMetadataV {
        NoteMetadataV {
            title: self.title@,
            tag: self.tag@,
            created_at: self.created_at,
            updated_at: self.updated_at,
            file_extension: self.file_extension@,
        }
    }
}

} // verus!
