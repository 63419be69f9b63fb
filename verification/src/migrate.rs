//! Migrator: classifying a manager file's schema and converting legacy note
//! records into current-schema recent-file records.
//!
//! The filesystem work of a migration (probing, copying, reading timestamps)
//! happens elsewhere; everything decided from those answers is verified here.

use vstd::prelude::*;
use crate::codec::legacy_of_chars;
use crate::codec::ser_legacy;
use crate::codec::ser_state;
use crate::codec::state_of_chars;
use crate::model::LocalFileRecord;
use crate::model::LocalFileRecordV;
use crate::model::NoteV1;
use crate::model::NoteV1V;
use crate::model::PersistedStateV;
use crate::model::SchemaVersion;
use crate::model::notes_view;
use crate::model::records_view;
use crate::model::recent_files_wf;
use crate::sanitize::sanitize_spec;

verus! {

/// What a manager file's content turned out to be.
#[derive(Clone, Copy, Debug, PartialEq, Eq, Structural)]
pub enum ManagerSchema {
    /// The current schema: one object holding recent files and session.
    Current,
    /// The legacy schema: an array of note records.
    Legacy,
    /// Neither: unusable bytes.
    Unrecognized,
}

/// The ordered classification: the newest schema is tried first, then the
/// legacy one; anything else is unusable.
pub open spec fn classify_spec(content: Seq<char>) -> ManagerSchema {
    if state_of_chars(content) is Some {
        ManagerSchema::Current
    } else if legacy_of_chars(content) is Some {
        ManagerSchema::Legacy
    } else {
        ManagerSchema::Unrecognized
    }
}

/// Classify manager-file content, trying the current schema first.
pub fn classify_manager_content(content: &str) -> (r: ManagerSchema)
    ensures
        r == classify_spec(content@),
{
    if crate::codec::parse_state_str(content).is_some() {
        ManagerSchema::Current
    } else if crate::codec::parse_legacy_str(content).is_some() {
        ManagerSchema::Legacy
    } else {
        ManagerSchema::Unrecognized
    }
}

/// The ordered detection rule: no migration while the current-schema manager
/// file exists; otherwise exactly when the legacy manager file was readable
/// and holds a legacy note array.  Unreadable or unrecognizable legacy data
/// means there is nothing usable to migrate.
pub open spec fn migration_needed_spec(
    manager_exists: bool,
    legacy_content: Option<Seq<char>>,
) -> bool {
    if manager_exists {
        false
    } else {
        match legacy_content {
            None => false,
            Some(c) => classify_spec(c) == ManagerSchema::Legacy,
        }
    }
}

/// Decide whether a one-time migration is needed from the two filesystem
/// answers: whether the current manager file exists, and what the legacy
/// manager file held, if it could be read.
pub fn migration_needed(manager_exists: bool, legacy_content: Option<&str>) -> (r: bool)
    ensures
        r == migration_needed_spec(
            manager_exists,
            match legacy_content {
                Some(c) => Some(c@),
                None => None,
            },
        ),
{
    if manager_exists {
        return false;
    }
    match legacy_content {
        None => false,
        Some(c) => match classify_manager_content(c) {
            ManagerSchema::Legacy => true,
            _ => false,
        },
    }
}

/// A file this library wrote under the current schema always classifies as
/// current.
pub proof fn lemma_classify_current(v: PersistedStateV)
    requires
        v.schema_version == SchemaVersion::V2,
    ensures
        classify_spec(ser_state(v)) == ManagerSchema::Current,
{
    crate::codec::lemma_state_round_trip(v);
}

/// A legacy manager file (an array of note records) always classifies as
/// legacy, never as current.
pub proof fn lemma_classify_legacy(ns: Seq<NoteV1V>)
    ensures
        classify_spec(ser_legacy(ns)) == ManagerSchema::Legacy,
{
    crate::codec::lemma_legacy_round_trip(ns);
    crate::codec::lemma_legacy_is_not_state(ns);
}

/// The file name a legacy note's backing file is copied to: the sanitized
/// title plus the original extension.
pub open spec fn dest_filename(n: NoteV1V) -> Seq<char> {
    sanitize_spec(n.title) + seq!['.'] + n.file_extension
}

/// The destination path inside the new data directory.
pub open spec fn dest_path(data_dir: Seq<char>, n: NoteV1V) -> Seq<char> {
    data_dir + seq!['/'] + dest_filename(n)
}

/// The recent-file record a migrated legacy note becomes: keyed by its
/// destination path, carrying the destination's modification time.
pub open spec fn migrated_record(data_dir: Seq<char>, n: NoteV1V, mtime: u64) -> LocalFileRecordV {
    LocalFileRecordV {
        id: n.tag,
        filename: dest_filename(n),
        modified: mtime,
        path: dest_path(data_dir, n),
    }
}

/// Insert a record into the path-keyed collection: a record with the same
/// path is replaced in place, otherwise the new record is appended.
pub open spec fn upsert(rs: Seq<LocalFileRecordV>, r: LocalFileRecordV) -> Seq<LocalFileRecordV>
    decreases rs.len(),
{
    if rs.len() == 0 {
        seq![r]
    } else if rs[0].path == r.path {
        seq![r] + rs.drop_first()
    } else {
        seq![rs[0]] + upsert(rs.drop_first(), r)
    }
}

/// The recent-file collection after migrating the first `k` legacy records:
/// a record whose backing file exists becomes an entry; the others are
/// silently skipped.
pub open spec fn migrated_records(
    data_dir: Seq<char>,
    ns: Seq<NoteV1V>,
    mask: Seq<bool>,
    mtimes: Seq<u64>,
    k: int,
) -> Seq<LocalFileRecordV>
    decreases k,
{
    if k <= 0 {
        Seq::empty()
    } else {
        let prev = migrated_records(data_dir, ns, mask, mtimes, k - 1);
        if k - 1 < ns.len() && k - 1 < mask.len() && k - 1 < mtimes.len() && mask[k - 1] {
            upsert(prev, migrated_record(data_dir, ns[k - 1], mtimes[k - 1]))
        } else {
            prev
        }
    }
}

proof fn lemma_upsert_found(rs: Seq<LocalFileRecordV>, r: LocalFileRecordV, idx: int)
    requires
        0 <= idx < rs.len(),
        rs[idx].path == r.path,
        forall|m: int| 0 <= m < idx ==> (#[trigger] rs[m]).path != r.path,
    ensures
        upsert(rs, r) == rs.update(idx, r),
    decreases rs.len(),
{
    if idx == 0 {
        assert(upsert(rs, r) =~= rs.update(0, r));
    } else {
        assert(rs[0].path != r.path);
        assert(forall|m: int|
            0 <= m < idx - 1 ==> (#[trigger] rs.drop_first()[m]).path != r.path);
        assert(rs.drop_first()[idx - 1] == rs[idx]);
        lemma_upsert_found(rs.drop_first(), r, idx - 1);
        assert(upsert(rs, r) =~= rs.update(idx, r));
    }
}

proof fn lemma_upsert_absent(rs: Seq<LocalFileRecordV>, r: LocalFileRecordV)
    requires
        forall|m: int| 0 <= m < rs.len() ==> (#[trigger] rs[m]).path != r.path,
    ensures
        upsert(rs, r) == rs.push(r),
    decreases rs.len(),
{
    if rs.len() == 0 {
        assert(upsert(rs, r) =~= rs.push(r));
    } else {
        assert(forall|m: int|
            0 <= m < rs.drop_first().len() ==> (#[trigger] rs.drop_first()[m]).path != r.path);
        lemma_upsert_absent(rs.drop_first(), r);
        assert(upsert(rs, r) =~= rs.push(r));
    }
}

/// Append `suffix` to a string, with the view known.
fn append_str(s: &mut String, suffix: &str)
    ensures
        final(s)@ == old(s)@ + suffix@,
{
    s.append(suffix);
}

/// The destination file name for one legacy record.
pub fn build_dest_filename(n: &NoteV1) -> (r: String)
    ensures
        r@ == dest_filename(n@),
{
    let mut name = crate::sanitize::sanitize_title(n.title.as_str());
    proof {
        reveal_strlit(".");
        assert("."@ =~= seq!['.']);
    }
    append_str(&mut name, ".");
    append_str(&mut name, n.file_extension.as_str());
    name
}

/// `dir` and `name` joined with a single separator.
pub fn join_path(dir: &str, name: &str) -> (r: String)
    ensures
        r@ == dir@ + seq!['/'] + name@,
{
    let mut p = String::new();
    append_str(&mut p, dir);
    proof {
        reveal_strlit("/");
        assert("/"@ =~= seq!['/']);
    }
    append_str(&mut p, "/");
    append_str(&mut p, name);
    p
}

/// Find the index of the record keyed by `path`, if any.
fn find_path_index(rs: &Vec<LocalFileRecord>, path: &String) -> (r: Option<usize>)
    ensures
        match r {
            Some(idx) => idx < rs@.len() && rs@[idx as int]@.path == path@ && forall|m: int|
                0 <= m < idx ==> (#[trigger] rs@[m])@.path != path@,
            None => forall|m: int| 0 <= m < rs@.len() ==> (#[trigger] rs@[m])@.path != path@,
        },
{
    let mut i: usize = 0;
    while i < rs.len()
        invariant
            i <= rs@.len(),
            forall|m: int| 0 <= m < i ==> (#[trigger] rs@[m])@.path != path@,
        decreases rs@.len() - i,
    {
        if rs[i].path.eq(path) {
            return Some(i);
        }
        i = i + 1;
    }
    None
}

/// Convert the legacy records whose backing files exist into the
/// recent-files collection, keyed by destination path; records whose file is
/// missing are silently skipped, and a later record reusing a destination
/// path replaces the earlier entry.
pub fn migrate_records(
    data_dir: &str,
    notes: &Vec<NoteV1>,
    exists_mask: &Vec<bool>,
    mtimes: &Vec<u64>,
) -> (r: Vec<LocalFileRecord>)
    requires
        exists_mask@.len() == notes@.len(),
        mtimes@.len() == notes@.len(),
    ensures
        records_view(r@) == migrated_records(
            data_dir@,
            notes_view(notes@),
            exists_mask@,
            mtimes@,
            notes@.len() as int,
        ),
        recent_files_wf(records_view(r@)),
{
    let ghost nv = notes_view(notes@);
    let mut out: Vec<LocalFileRecord> = Vec::new();
    let mut k: usize = 0;
    while k < notes.len()
        invariant
            nv == notes_view(notes@),
            exists_mask@.len() == notes@.len(),
            mtimes@.len() == notes@.len(),
            k <= notes@.len(),
            records_view(out@) == migrated_records(data_dir@, nv, exists_mask@, mtimes@, k as int),
            recent_files_wf(records_view(out@)),
        decreases notes@.len() - k,
    {
        proof {
            assert(nv[k as int] == notes@[k as int]@);
        }
        if exists_mask[k] {
            let n = &notes[k];
            let fname = build_dest_filename(n);
            let path = join_path(data_dir, fname.as_str());
            let rec = LocalFileRecord {
                id: n.tag.clone(),
                filename: fname,
                modified: mtimes[k],
                path,
            };
            proof {
                assert(rec@ == migrated_record(data_dir@, nv[k as int], mtimes@[k as int]));
            }
            let ghost prev = records_view(out@);
            match find_path_index(&out, &rec.path) {
                Some(idx) => {
                    proof {
                        assert(forall|m: int|
                            0 <= m < prev.len() ==> (#[trigger] prev[m]).path == out@[m]@.path);
                        lemma_upsert_found(prev, rec@, idx as int);
                    }
                    out.remove(idx);
                    out.insert(idx, rec);
                    proof {
                        assert(records_view(out@) =~= prev.update(idx as int, rec@));
                        assert(recent_files_wf(records_view(out@))) by {
                            let cur = records_view(out@);
                            assert(forall|m: int|
                                0 <= m < cur.len() ==> (#[trigger] cur[m]).path == prev[m].path);
                        }
                    }
                },
                None => {
                    proof {
                        assert(forall|m: int|
                            0 <= m < prev.len() ==> (#[trigger] prev[m]).path == out@[m]@.path);
                        lemma_upsert_absent(prev, rec@);
                    }
                    out.push(rec);
                    proof {
                        assert(records_view(out@) =~= prev.push(rec@));
                        assert(recent_files_wf(records_view(out@))) by {
                            let cur = records_view(out@);
                            assert(forall|m: int| 0 <= m < prev.len() ==> cur[m] == prev[m]);
                            assert(cur[cur.len() - 1] == rec@);
                        }
                    }
                },
            }
            proof {
                assert(records_view(out@) == upsert(prev, rec@));
            }
        }
        k = k + 1;
    }
    out
}

/// The number of `true` answers among the probe results.
pub open spec fn count_true(mask: Seq<bool>) -> int
    decreases mask.len(),
{
    if mask.len() == 0 {
        0
    } else {
        count_true(mask.drop_last()) + if mask.last() {
            1int
        } else {
            0int
        }
    }
}

/// Exactly the records whose backing file exists become entries: when their
/// destination paths are pairwise distinct, the migrated collection holds
/// one entry per existing-file record and nothing else — a record whose file
/// is missing is silently absent.
pub proof fn lemma_migrated_records_exact(
    data_dir: Seq<char>,
    ns: Seq<NoteV1V>,
    mask: Seq<bool>,
    mtimes: Seq<u64>,
    k: int,
)
    requires
        mask.len() == ns.len(),
        mtimes.len() == ns.len(),
        0 <= k <= ns.len(),
        forall|i: int, j: int|
            0 <= i < j < ns.len() && mask[i] && mask[j] ==> dest_path(data_dir, #[trigger] ns[i])
                != dest_path(data_dir, #[trigger] ns[j]),
    ensures
        migrated_records(data_dir, ns, mask, mtimes, k).len() == count_true(mask.take(k)),
        forall|m: int|
            0 <= m < migrated_records(data_dir, ns, mask, mtimes, k).len() ==> exists|i: int|
                0 <= i < k && mask[i] && #[trigger] migrated_records(
                    data_dir,
                    ns,
                    mask,
                    mtimes,
                    k,
                )[m] == migrated_record(data_dir, ns[i], mtimes[i]),
    decreases k,
{
    if k > 0 {
        lemma_migrated_records_exact(data_dir, ns, mask, mtimes, k - 1);
        let prev = migrated_records(data_dir, ns, mask, mtimes, k - 1);
        let cur = migrated_records(data_dir, ns, mask, mtimes, k);
        assert(mask.take(k).drop_last() =~= mask.take(k - 1));
        assert(mask.take(k).last() == mask[k - 1]);
        if mask[k - 1] {
            let rec = migrated_record(data_dir, ns[k - 1], mtimes[k - 1]);
            assert forall|m: int| 0 <= m < prev.len() implies (#[trigger] prev[m]).path
                != rec.path by {
                let i = choose|i: int|
                    0 <= i < k - 1 && mask[i] && prev[m] == migrated_record(
                        data_dir,
                        ns[i],
                        mtimes[i],
                    );
                assert(dest_path(data_dir, ns[i]) != dest_path(data_dir, ns[k - 1]));
            }
            lemma_upsert_absent(prev, rec);
            assert(cur == prev.push(rec));
            assert forall|m: int| 0 <= m < cur.len() implies exists|i: int|
                0 <= i < k && mask[i] && #[trigger] cur[m] == migrated_record(
                    data_dir,
                    ns[i],
                    mtimes[i],
                ) by {
                if m < prev.len() {
                    let i = choose|i: int|
                        0 <= i < k - 1 && mask[i] && prev[m] == migrated_record(
                            data_dir,
                            ns[i],
                            mtimes[i],
                        );
                    assert(cur[m] == prev[m]);
                    assert(0 <= i < k && mask[i] && cur[m] == migrated_record(
                        data_dir,
                        ns[i],
                        mtimes[i],
                    ));
                } else {
                    assert(cur[m] == rec);
                    assert(mask[k - 1] && cur[m] == migrated_record(
                        data_dir,
                        ns[k - 1],
                        mtimes[k - 1],
                    ));
                }
            }
        }
    } else {
        assert(mask.take(0) =~= Seq::<bool>::empty());
    }
}

} // verus!
