//! StateManager: the one component the surrounding application calls.  It
//! orchestrates load, save, migration detection and migration over the
//! verified codec, validator and migrator, with all disk work behind the
//! trusted wrappers.

use vstd::prelude::*;
use crate::atomic::StoreError;
use crate::atomic::parent_dir;
use crate::codec::ser_state;
use crate::codec::state_of_chars;
use crate::model::PersistedState;
use crate::model::PersistedStateV;
use crate::model::SchemaVersion;
use crate::model::fresh_state;
use crate::validate::has_tab_with_id;
use crate::validate::path_confirmed;
use crate::validate::tab_kept;
use crate::validate::validated_state;

verus! {

/// The explicit context handle: every path the state layer touches, fixed
/// once at startup and passed into every call.
pub struct AppDirs {
    /// The current-schema manager file, inside `data_dir`.
    pub manager_path: String,
    /// Where note files and the manager file live now.
    pub data_dir: String,
    /// The legacy manager file, inside `legacy_data_dir`.
    pub legacy_manager_path: String,
    /// Where the prior schema kept its note files.
    pub legacy_data_dir: String,
}

impl AppDirs {
    /// Build the handle from the two data directories; both manager files
    /// carry the fixed name this application has always used.
    pub fn new(data_dir: &str, legacy_data_dir: &str) -> (r: AppDirs)
        ensures
            r.data_dir@ == data_dir@,
            r.legacy_data_dir@ == legacy_data_dir@,
            r.manager_path@ == data_dir@ + seq!['/'] + manager_file_name(),
            r.legacy_manager_path@ == legacy_data_dir@ + seq!['/'] + manager_file_name(),
    {
        proof {
            reveal_strlit("notes-manager.json");
            assert("notes-manager.json"@ =~= manager_file_name());
        }
        let manager_path = crate::migrate::join_path(data_dir, "notes-manager.json");
        let legacy_manager_path = crate::migrate::join_path(legacy_data_dir, "notes-manager.json");
        AppDirs {
            manager_path,
            data_dir: {
                let mut d = String::new();
                d.append(data_dir);
                d
            },
            legacy_manager_path,
            legacy_data_dir: {
                let mut d = String::new();
                d.append(legacy_data_dir);
                d
            },
        }
    }
}

/// The fixed file name of the manager document.
pub open spec fn manager_file_name() -> Seq<char> {
    seq!['n', 'o', 't', 'e', 's', '-', 'm', 'a', 'n', 'a', 'g', 'e', 'r', '.', 'j', 's', 'o', 'n']
}

/// The selection is consistent: a set id names one of the tabs, and the id
/// is only unset when there is no tab at all.
pub open spec fn selection_consistent(st: PersistedStateV) -> bool {
    &&& st.session.current_tab_id is Some ==> has_tab_with_id(
        st.session.tabs,
        st.session.current_tab_id->0,
    )
    &&& st.session.current_tab_id is None ==> st.session.tabs.len() == 0
}

proof fn lemma_validated_selection(st: PersistedStateV, paths: Seq<Seq<char>>, mask: Seq<bool>)
    ensures
        selection_consistent(validated_state(st, paths, mask)),
        validated_state(st, paths, mask).schema_version == st.schema_version,
{
    let kept = crate::validate::kept_tabs(paths, mask, st.session.tabs);
    let v = validated_state(st, paths, mask);
    match st.session.current_tab_id {
        Some(id) => {
            if has_tab_with_id(kept, id) {
            } else if kept.len() > 0 {
                assert(kept[0].id == v.session.current_tab_id->0);
                assert(has_tab_with_id(kept, kept[0].id));
            }
        },
        None => {
            if kept.len() > 0 {
                assert(kept[0].id == v.session.current_tab_id->0);
                assert(has_tab_with_id(kept, kept[0].id));
            }
        },
    }
}

/// What manager-file content means on load: a state that parses under the
/// current schema, and a fresh default state for a missing file, unreadable
/// bytes or a schema mismatch — corrupted local state must never block
/// startup.
pub fn interpret_manager_content(content: Option<&str>) -> (st: PersistedState)
    ensures
        st@ == match content {
            None => fresh_state(),
            Some(c) => match state_of_chars(c@) {
                Some(v) => v,
                None => fresh_state(),
            },
        },
{
    match content {
        None => PersistedState::fresh(),
        Some(c) => match crate::codec::parse_state_str(c) {
            Some(st) => st,
            None => PersistedState::fresh(),
        },
    }
}

/// Load the persisted state.  This never fails outward: a missing file,
/// unreadable bytes or a schema mismatch all yield a fresh default state, as
/// `interpret_manager_content` describes.  A state that did parse is
/// validated against the filesystem before it is returned, so the selection
/// is always consistent afterwards.
pub fn load_state(dirs: &AppDirs) -> (st: PersistedState)
    ensures
        st@.schema_version == SchemaVersion::V2,
        selection_consistent(st@),
{
    let content = crate::fsio::read_file_string(dirs.manager_path.as_str());
    let mut st = interpret_manager_content(
        match &content {
            Some(c) => Some(c.as_str()),
            None => None,
        },
    );
    let paths = crate::validate::referenced_paths(&st);
    let mask = crate::fsio::probe_all(&paths);
    proof {
        lemma_validated_selection(st@, crate::validate::paths_view(paths@), mask@);
    }
    crate::validate::apply_validation(&mut st, &paths, &mask);
    st
}

/// Serialize the whole state and write it in one atomic step.  An I/O
/// failure is returned to the caller: silently losing a save would lose user
/// data.
pub fn save_state(dirs: &AppDirs, st: &PersistedState) -> (r: Result<(), StoreError>)
    ensures
        r == Err::<(), StoreError>(StoreError::InvalidPath) <==> parent_dir(
            dirs.manager_path@,
        ) is None,
{
    let text = crate::codec::serialize_state(st);
    crate::atomic::atomic_write(dirs.manager_path.as_str(), text.as_str())
}

/// For any state whose referenced paths all exist (every probe of them
/// answers true) and whose selection is consistent, what `save_state` writes
/// is read back by `load_state` as exactly the same state: the codec round
/// trip returns it and validation leaves it unchanged.
pub proof fn lemma_save_load_round_trip(
    st: PersistedStateV,
    paths: Seq<Seq<char>>,
    mask: Seq<bool>,
)
    requires
        st.schema_version == SchemaVersion::V2,
        forall|i: int|
            0 <= i < st.session.tabs.len() ==> tab_kept(paths, mask, #[trigger] st.session.tabs[i]),
        forall|i: int|
            0 <= i < st.recent_files.len() ==> path_confirmed(
                paths,
                mask,
                (#[trigger] st.recent_files[i]).path,
            ),
        selection_consistent(st),
    ensures
        state_of_chars(ser_state(st)) == Some(st),
        validated_state(st, paths, mask) == st,
{
    crate::codec::lemma_state_round_trip(st);
    crate::validate::lemma_validation_identity(st, paths, mask);
}

/// Whether a one-time migration is needed: never when the current-schema
/// manager file already exists; otherwise exactly when the legacy manager
/// file is readable and holds a legacy note array.
pub fn check_for_migration(dirs: &AppDirs) -> (r: bool)
{
    let manager_exists = crate::fsio::path_exists(dirs.manager_path.as_str());
    let legacy_content = if manager_exists {
        None
    } else {
        crate::fsio::read_file_string(dirs.legacy_manager_path.as_str())
    };
    crate::migrate::migration_needed(
        manager_exists,
        match &legacy_content {
            Some(c) => Some(c.as_str()),
            None => None,
        },
    )
}

/// What went wrong when a migration was explicitly requested.
#[derive(Clone, Copy, Debug, PartialEq, Eq, Structural)]
pub enum MigrationError {
    /// The legacy manager file could not be read.
    LegacyUnreadable,
    /// The legacy manager file did not hold a legacy note array.
    LegacyUnparseable,
    /// Writing the migrated manager file failed.
    Write(StoreError),
}

impl MigrationError {
    /// The human-readable message for this error category.
    pub fn describe(&self) -> (r: &'static str)
        ensures
            match self {
                MigrationError::LegacyUnreadable => r@
                    == "the legacy manager file could not be read"@,
                MigrationError::LegacyUnparseable => r@
                    == "the legacy manager file does not hold a legacy note array"@,
                MigrationError::Write(_) => r@ == "writing the migrated manager file failed"@,
            },
    {
        match self {
            MigrationError::LegacyUnreadable => "the legacy manager file could not be read",
            MigrationError::LegacyUnparseable => {
                "the legacy manager file does not hold a legacy note array"
            },
            MigrationError::Write(_) => "writing the migrated manager file failed",
        }
    }
}

/// What a completed migration did.
#[derive(Clone, Debug, PartialEq, Eq)]
pub struct MigrationSummary {
    /// Records whose backing file existed, was copied and became an entry.
    pub migrated: usize,
    /// Records silently skipped because their backing file was missing or
    /// could not be copied.
    pub skipped: usize,
    /// The recorded warning when best-effort cleanup failed; cleanup failure
    /// never fails the migration.
    pub cleanup_warning: Option<String>,
}

/// Migrate the legacy store into the current schema: parse the legacy note
/// array, copy each record's backing file into the new data directory
/// (records whose file is missing are silently skipped), assemble a fresh
/// state holding the collected records and an empty session, write it
/// atomically, then best-effort remove the legacy data — a cleanup failure
/// only leaves a recorded warning.  Re-running after success is a no-op
/// because migration detection then finds the current-schema file.
pub fn migrate_v1_to_v2(dirs: &AppDirs) -> (r: Result<MigrationSummary, MigrationError>)
    ensures
        match r {
            Ok(s) => s.migrated + s.skipped <= usize::MAX,
            Err(e) => e != MigrationError::Write(StoreError::InvalidPath) || parent_dir(
                dirs.manager_path@,
            ) is None,
        },
{
    let content = match crate::fsio::read_file_string(dirs.legacy_manager_path.as_str()) {
        Some(c) => c,
        None => {
            return Err(MigrationError::LegacyUnreadable);
        },
    };
    let notes = match crate::codec::parse_legacy_str(content.as_str()) {
        Some(ns) => ns,
        None => {
            return Err(MigrationError::LegacyUnparseable);
        },
    };
    let mut source_paths: Vec<String> = Vec::new();
    let mut i: usize = 0;
    while i < notes.len()
        invariant
            i <= notes@.len(),
            source_paths@.len() == i,
        decreases notes@.len() - i,
    {
        let name = crate::notes::build_note_file_name(&notes[i].tag, &notes[i].file_extension);
        source_paths.push(crate::migrate::join_path(dirs.legacy_data_dir.as_str(), name.as_str()));
        i = i + 1;
    }
    let exists_mask = crate::fsio::probe_all(&source_paths);
    let mut copied_mask: Vec<bool> = Vec::new();
    let mut mtimes: Vec<u64> = Vec::new();
    let mut migrated: usize = 0;
    let mut k: usize = 0;
    while k < notes.len()
        invariant
            k <= notes@.len(),
            exists_mask@.len() == notes@.len(),
            source_paths@.len() == notes@.len(),
            copied_mask@.len() == k,
            mtimes@.len() == k,
            migrated <= k,
        decreases notes@.len() - k,
    {
        if exists_mask[k] {
            let dest_name = crate::migrate::build_dest_filename(&notes[k]);
            let dest = crate::migrate::join_path(dirs.data_dir.as_str(), dest_name.as_str());
            if crate::fsio::copy_file(source_paths[k].as_str(), dest.as_str()) {
                copied_mask.push(true);
                mtimes.push(crate::fsio::file_mtime_millis(dest.as_str()));
                migrated = migrated + 1;
            } else {
                copied_mask.push(false);
                mtimes.push(0);
            }
        } else {
            copied_mask.push(false);
            mtimes.push(0);
        }
        k = k + 1;
    }
    let records = crate::migrate::migrate_records(
        dirs.data_dir.as_str(),
        &notes,
        &copied_mask,
        &mtimes,
    );
    let mut st = PersistedState::fresh();
    st.recent_files = records;
    let text = crate::codec::serialize_state(&st);
    match crate::atomic::atomic_write(dirs.manager_path.as_str(), text.as_str()) {
        Ok(_) => {},
        Err(e) => {
            return Err(MigrationError::Write(e));
        },
    }
    let cleanup_warning: Option<String> = if crate::fsio::remove_dir_all(
        dirs.legacy_data_dir.as_str(),
    ) {
        None
    } else if crate::fsio::remove_file(dirs.legacy_manager_path.as_str()) {
        let mut w = String::new();
        w.append("could not remove the legacy data directory; removed the legacy manager file");
        Some(w)
    } else {
        let mut w = String::new();
        w.append("could not remove the legacy data directory or the legacy manager file");
        Some(w)
    };
    let skipped = notes.len() - migrated;
    Ok(MigrationSummary { migrated, skipped, cleanup_warning })
}

} // verus!
