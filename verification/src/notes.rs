//! The notes database kept by the surrounding commands: the current note
//! schema, the conversion from the prior schema, and the pure cores of the
//! note commands (lookup, edit, search, password checks).  Hashing and
//! random ids come from outside crates behind trusted wrappers.

use vstd::prelude::*;
use crate::codec::legacy_of_chars;
use crate::model::NoteMetadata;
use crate::model::NoteMetadataV;
use crate::model::NoteV1;
use crate::model::NoteV1V;
use crate::model::SchemaVersion;
use crate::model::notes_view;

verus! {

/// `{tag}.{extension}`: the file name of one note's backing file.
pub fn build_note_file_name(tag: &String, extension: &String) -> (r: String)
    ensures
        r@ == tag@ + seq!['.'] + extension@,
{
    let mut name = String::new();
    name.append(tag.as_str());
    proof {
        reveal_strlit(".");
        assert("."@ =~= seq!['.']);
    }
    name.append(".");
    name.append(extension.as_str());
    name
}

/// The error the note commands surface: a human-readable message, the
/// underlying reason, and the method that failed.
#[derive(Clone, Debug, PartialEq, Eq)]
pub struct NoteError {
    pub message: String,
    pub reason: String,
    pub method: String,
}

impl NoteError {
    pub fn new(message: &str, reason: &str, method: &str) -> (r: Self)
        ensures
            r.message@ == message@,
            r.reason@ == reason@,
            r.method@ == method@,
    {
        let mut m = String::new();
        m.append(message);
        let mut re = String::new();
        re.append(reason);
        let mut me = String::new();
        me.append(method);
        NoteError { message: m, reason: re, method: me }
    }
}

/// How a note's text is rendered.
#[derive(Clone, Copy, Debug, PartialEq, Eq, Structural)]
pub enum NoteType {
    MD,
    TXT,
}

/// The note type a file extension stands for: `md` is markdown, everything
/// else plain text.
pub open spec fn note_type_of(extension: Seq<char>) -> NoteType {
    if extension == seq!['m', 'd'] {
        NoteType::MD
    } else {
        NoteType::TXT
    }
}

impl NoteType {
    pub fn from_file_extension(file_extension: &str) -> (r: Self)
        ensures
            r == note_type_of(file_extension@),
    {
        let cs = crate::text::str_chars(file_extension);
        if cs.len() == 2 && cs[0] == 'm' && cs[1] == 'd' {
            proof {
                assert(file_extension@ =~= seq!['m', 'd']);
            }
            NoteType::MD
        } else {
            proof {
                assert(file_extension@ != seq!['m', 'd']);
            }
            NoteType::TXT
        }
    }
}

/// Optional password protection on one note.
#[derive(Clone, Debug, PartialEq, Eq)]
pub struct AccessControl {
    pub password: String,
}

pub ghost struct AccessControlV {
    pub password: Seq<char>,
}

impl View for AccessControl {
    type V = AccessControlV;

    open spec fn view(&self) -> AccessControlV {
        AccessControlV { password: self.password@ }
    }
}

/// One note under the current note schema.
#[derive(Clone, Debug, PartialEq, Eq)]
pub struct NoteV2 {
    pub id: String,
    pub title: String,
    pub created_at: u64,
    pub updated_at: u64,
    pub access_control: Option<AccessControl>,
    pub is_favorite: bool,
    pub tags: Vec<String>,
    pub note_type: NoteType,
}

pub ghost struct NoteV2V {
    pub id: Seq<char>,
    pub title: Seq<char>,
    pub created_at: u64,
    pub updated_at: u64,
    pub access_control: Option<AccessControlV>,
    pub is_favorite: bool,
    pub tags: Seq<Seq<char>>,
    pub note_type: NoteType,
}

impl View for NoteV2 {
    type V = NoteV2V;

    open spec fn view(&self) -> NoteV2V {
        NoteV2V {
            id: self.id@,
            title: self.title@,
            created_at: self.created_at,
            updated_at: self.updated_at,
            access_control: match self.access_control {
                Some(a) => Some(a@),
                None => None,
            },
            is_favorite: self.is_favorite,
            tags: Seq::new(self.tags@.len(), |i: int| self.tags@[i]@),
            note_type: self.note_type,
        }
    }
}

/// The element-wise view of a note vector.
pub open spec fn notes_v2_view(ns: Seq<NoteV2>) -> Seq<NoteV2V> {
    Seq::new(ns.len(), |i: int| ns[i]@)
}

/// What one command submits to create or edit a note.
#[derive(Clone, Debug, PartialEq, Eq)]
pub struct NoteEntry {
    pub title: String,
    pub content: String,
    pub note_type: NoteType,
}

/// All notes, keyed by their own ids, plus the schema version.
#[derive(Clone, Debug, PartialEq, Eq)]
pub struct DatabaseV2 {
    pub notes: Vec<NoteV2>,
    pub schema_version: SchemaVersion,
}

pub ghost struct DatabaseV2V {
    pub notes: Seq<NoteV2V>,
    pub schema_version: SchemaVersion,
}

impl View for DatabaseV2 {
    type V = DatabaseV2V;

    open spec fn view(&self) -> DatabaseV2V {
        DatabaseV2V { notes: notes_v2_view(self.notes@), schema_version: self.schema_version }
    }
}

/// The notes stand for a map keyed by id: ids are pairwise distinct.
pub open spec fn db_wf(ns: Seq<NoteV2V>) -> bool {
    forall|i: int, j: int| 0 <= i < j < ns.len() ==> (#[trigger] ns[i]).id != (#[trigger] ns[j]).id
}

/// The current-schema note a legacy record becomes: the tag is its id, the
/// timestamps carry over, and nothing is protected, favorite or tagged.
pub open spec fn v2_of_v1(n: NoteV1V) -> NoteV2V {
    NoteV2V {
        id: n.tag,
        title: n.title,
        created_at: n.created_at,
        updated_at: n.updated_at,
        access_control: None,
        is_favorite: false,
        tags: Seq::empty(),
        note_type: note_type_of(n.file_extension),
    }
}

/// Insert a note into the id-keyed collection: a note with the same id is
/// replaced in place, otherwise the new note is appended.
pub open spec fn upsert_note(ns: Seq<NoteV2V>, n: NoteV2V) -> Seq<NoteV2V>
    decreases ns.len(),
{
    if ns.len() == 0 {
        seq![n]
    } else if ns[0].id == n.id {
        seq![n] + ns.drop_first()
    } else {
        seq![ns[0]] + upsert_note(ns.drop_first(), n)
    }
}

/// The database contents after converting the first `k` legacy records; a
/// later record with the same tag replaces the earlier one, as a map keyed
/// by tag would.
pub open spec fn migrated_db(ns: Seq<NoteV1V>, k: int) -> Seq<NoteV2V>
    decreases k,
{
    if k <= 0 {
        Seq::empty()
    } else {
        let prev = migrated_db(ns, k - 1);
        if k - 1 < ns.len() {
            upsert_note(prev, v2_of_v1(ns[k - 1]))
        } else {
            prev
        }
    }
}

proof fn lemma_upsert_note_found(ns: Seq<NoteV2V>, n: NoteV2V, idx: int)
    requires
        0 <= idx < ns.len(),
        ns[idx].id == n.id,
        forall|m: int| 0 <= m < idx ==> (#[trigger] ns[m]).id != n.id,
    ensures
        upsert_note(ns, n) == ns.update(idx, n),
    decreases ns.len(),
{
    if idx == 0 {
        assert(upsert_note(ns, n) =~= ns.update(0, n));
    } else {
        assert(ns[0].id != n.id);
        assert(forall|m: int| 0 <= m < idx - 1 ==> (#[trigger] ns.drop_first()[m]).id != n.id);
        assert(ns.drop_first()[idx - 1] == ns[idx]);
        lemma_upsert_note_found(ns.drop_first(), n, idx - 1);
        assert(upsert_note(ns, n) =~= ns.update(idx, n));
    }
}

proof fn lemma_upsert_note_absent(ns: Seq<NoteV2V>, n: NoteV2V)
    requires
        forall|m: int| 0 <= m < ns.len() ==> (#[trigger] ns[m]).id != n.id,
    ensures
        upsert_note(ns, n) == ns.push(n),
    decreases ns.len(),
{
    if ns.len() == 0 {
        assert(upsert_note(ns, n) =~= ns.push(n));
    } else {
        assert(forall|m: int|
            0 <= m < ns.drop_first().len() ==> (#[trigger] ns.drop_first()[m]).id != n.id);
        lemma_upsert_note_absent(ns.drop_first(), n);
        assert(upsert_note(ns, n) =~= ns.push(n));
    }
}

/// Find the index of the note with this id, if any.
fn find_note_index(ns: &Vec<NoteV2>, id: &String) -> (r: Option<usize>)
    ensures
        match r {
            Some(idx) => idx < ns@.len() && ns@[idx as int]@.id == id@ && forall|m: int|
                0 <= m < idx ==> (#[trigger] ns@[m])@.id != id@,
            None => forall|m: int| 0 <= m < ns@.len() ==> (#[trigger] ns@[m])@.id != id@,
        },
{
    let mut i: usize = 0;
    while i < ns.len()
        invariant
            i <= ns@.len(),
            forall|m: int| 0 <= m < i ==> (#[trigger] ns@[m])@.id != id@,
        decreases ns@.len() - i,
    {
        if ns[i].id.eq(id) {
            return Some(i);
        }
        i = i + 1;
    }
    None
}

impl DatabaseV2 {
    /// An empty database under the current schema.
    pub fn empty() -> (r: DatabaseV2)
        ensures
            r@.notes =~= Seq::<NoteV2V>::empty(),
            r@.schema_version == SchemaVersion::V2,
            db_wf(r@.notes),
    {
        DatabaseV2 { notes: Vec::new(), schema_version: SchemaVersion::V2 }
    }

    /// Convert a whole legacy note list: each record becomes a note keyed by
    /// its tag, a repeated tag keeping only the latest record.
    pub fn migrate_from_v1(v1_notes: Vec<NoteV1>) -> (r: Self)
        ensures
            r@.notes == migrated_db(notes_view(v1_notes@), v1_notes@.len() as int),
            r@.schema_version == SchemaVersion::V2,
            db_wf(r@.notes),
    {
        let ghost nv = notes_view(v1_notes@);
        let mut db = DatabaseV2::empty();
        let mut k: usize = 0;
        while k < v1_notes.len()
            invariant
                nv == notes_view(v1_notes@),
                k <= v1_notes@.len(),
                db@.notes == migrated_db(nv, k as int),
                db@.schema_version == SchemaVersion::V2,
                db_wf(db@.notes),
            decreases v1_notes@.len() - k,
        {
            proof {
                assert(nv[k as int] == v1_notes@[k as int]@);
            }
            let n = &v1_notes[k];
            let note = NoteV2 {
                id: n.tag.clone(),
                title: n.title.clone(),
                created_at: n.created_at,
                updated_at: n.updated_at,
                access_control: None,
                is_favorite: false,
                tags: Vec::new(),
                note_type: NoteType::from_file_extension(n.file_extension.as_str()),
            };
            proof {
                assert(note@.tags =~= Seq::<Seq<char>>::empty());
                assert(note@ == v2_of_v1(nv[k as int]));
            }
            db.insert_note(note);
            k = k + 1;
        }
        db
    }

    /// Insert or replace the note with this id, as a map keyed by id would.
    pub fn insert_note(&mut self, note: NoteV2)
        ensures
            final(self)@.notes == upsert_note(old(self)@.notes, note@),
            final(self)@.schema_version == old(self)@.schema_version,
            db_wf(old(self)@.notes) ==> db_wf(final(self)@.notes),
    {
        let ghost prev = self@.notes;
        match find_note_index(&self.notes, &note.id) {
            Some(idx) => {
                proof {
                    assert(forall|m: int|
                        0 <= m < prev.len() ==> (#[trigger] prev[m]).id == self.notes@[m]@.id);
                    lemma_upsert_note_found(prev, note@, idx as int);
                }
                self.notes.remove(idx);
                self.notes.insert(idx, note);
                proof {
                    assert(notes_v2_view(self.notes@) =~= prev.update(
                        idx as int,
                        self.notes@[idx as int]@,
                    ));
                }
            },
            None => {
                proof {
                    assert(forall|m: int|
                        0 <= m < prev.len() ==> (#[trigger] prev[m]).id == self.notes@[m]@.id);
                    lemma_upsert_note_absent(prev, note@);
                }
                self.notes.push(note);
                proof {
                    assert(notes_v2_view(self.notes@) =~= prev.push(
                        self.notes@[self.notes@.len() - 1]@,
                    ));
                }
            },
        }
    }

    /// Remove the note with this id; reports whether one was there.
    pub fn remove_note(&mut self, id: &String) -> (found: bool)
        ensures
            found <==> exists|m: int|
                0 <= m < old(self)@.notes.len() && (#[trigger] old(self)@.notes[m]).id == id@,
            found ==> exists|m: int|
                0 <= m < old(self)@.notes.len() && (#[trigger] old(self)@.notes[m]).id == id@
                    && final(self)@.notes == old(self)@.notes.remove(m),
            !found ==> final(self)@.notes == old(self)@.notes,
            final(self)@.schema_version == old(self)@.schema_version,
    {
        let ghost prev = self@.notes;
        match find_note_index(&self.notes, id) {
            Some(idx) => {
                self.notes.remove(idx);
                proof {
                    assert(prev[idx as int].id == id@);
                    assert(notes_v2_view(self.notes@) =~= prev.remove(idx as int));
                }
                true
            },
            None => {
                proof {
                    assert(forall|m: int|
                        0 <= m < prev.len() ==> (#[trigger] prev[m]).id == self.notes@[m]@.id);
                }
                false
            },
        }
    }

    /// The note with this id, if any; under `db_wf` there is at most one.
    pub fn get_note(&self, id: &String) -> (r: Option<&NoteV2>)
        ensures
            match r {
                Some(n) => exists|m: int|
                    0 <= m < self@.notes.len() && (#[trigger] self@.notes[m]).id == id@
                        && n@ == self@.notes[m],
                None => forall|m: int|
                    0 <= m < self@.notes.len() ==> (#[trigger] self@.notes[m]).id != id@,
            },
    {
        match find_note_index(&self.notes, id) {
            Some(idx) => {
                proof {
                    assert(self@.notes[idx as int] == self.notes@[idx as int]@);
                }
                Some(&self.notes[idx])
            },
            None => {
                proof {
                    assert(forall|m: int|
                        0 <= m < self@.notes.len() ==> (#[trigger] self@.notes[m]).id
                            == self.notes@[m]@.id);
                }
                None
            },
        }
    }

    /// The number of notes.
    pub fn note_count(&self) -> (r: usize)
        ensures
            r == self@.notes.len(),
    {
        self.notes.len()
    }
}

/// A copy of a string vector whose element views are unchanged.
fn clone_string_vec(v: &Vec<String>) -> (r: Vec<String>)
    ensures
        r@.len() == v@.len(),
        forall|i: int| 0 <= i < v@.len() ==> (#[trigger] r@[i])@ == v@[i]@,
{
    let mut r: Vec<String> = Vec::new();
    let mut i: usize = 0;
    while i < v.len()
        invariant
            i <= v@.len(),
            r@.len() == i,
            forall|m: int| 0 <= m < i ==> (#[trigger] r@[m])@ == v@[m]@,
        decreases v@.len() - i,
    {
        r.push(v[i].clone());
        i = i + 1;
    }
    r
}

impl NoteV2 {
    /// A copy with the same view.
    pub fn duplicate(&self) -> (r: NoteV2)
        ensures
            r@ == self@,
    {
        let r = NoteV2 {
            id: self.id.clone(),
            title: self.title.clone(),
            created_at: self.created_at,
            updated_at: self.updated_at,
            access_control: match &self.access_control {
                Some(a) => Some(AccessControl { password: a.password.clone() }),
                None => None,
            },
            is_favorite: self.is_favorite,
            tags: clone_string_vec(&self.tags),
            note_type: self.note_type,
        };
        proof {
            assert(r@.tags =~= self@.tags);
            assert(r@.access_control == self@.access_control);
        }
        r
    }
}

/// `n` with a new title and update time; everything else unchanged.
pub open spec fn with_title(n: NoteV2V, title: Seq<char>, now: u64) -> NoteV2V {
    NoteV2V { title, updated_at: now, ..n }
}

/// Every note carrying `id` retitled; under `db_wf` that is at most one.
pub open spec fn titled_notes(ns: Seq<NoteV2V>, id: Seq<char>, title: Seq<char>, now: u64) -> Seq<
    NoteV2V,
> {
    Seq::new(
        ns.len(),
        |i: int|
            if ns[i].id == id {
                with_title(ns[i], title, now)
            } else {
                ns[i]
            },
    )
}

/// `n` with the favorite flag set to the opposite of `current`.
pub open spec fn with_favorite(n: NoteV2V, current: bool) -> NoteV2V {
    NoteV2V { is_favorite: !current, ..n }
}

pub open spec fn favored_notes(ns: Seq<NoteV2V>, id: Seq<char>, current: bool) -> Seq<NoteV2V> {
    Seq::new(
        ns.len(),
        |i: int|
            if ns[i].id == id {
                with_favorite(ns[i], current)
            } else {
                ns[i]
            },
    )
}

/// `n` protected by the given password hash.
pub open spec fn with_protection(n: NoteV2V, hash: Seq<char>) -> NoteV2V {
    NoteV2V { access_control: Some(AccessControlV { password: hash }), ..n }
}

pub open spec fn protected_notes(ns: Seq<NoteV2V>, id: Seq<char>, hash: Seq<char>) -> Seq<
    NoteV2V,
> {
    Seq::new(
        ns.len(),
        |i: int|
            if ns[i].id == id {
                with_protection(ns[i], hash)
            } else {
                ns[i]
            },
    )
}

impl DatabaseV2 {
    /// Set a new title (and update time) on the note with this id; reports
    /// whether one was there.
    pub fn set_title(&mut self, id: &String, title: &str, now: u64) -> (found: bool)
        ensures
            final(self)@.notes == titled_notes(old(self)@.notes, id@, title@, now),
            final(self)@.schema_version == old(self)@.schema_version,
            found <==> exists|m: int|
                0 <= m < old(self)@.notes.len() && (#[trigger] old(self)@.notes[m]).id == id@,
    {
        let ghost oldv = self@.notes;
        let mut new_notes: Vec<NoteV2> = Vec::new();
        let mut found: bool = false;
        let mut i: usize = 0;
        while i < self.notes.len()
            invariant
                oldv == notes_v2_view(self.notes@),
                i <= oldv.len(),
                notes_v2_view(new_notes@) == titled_notes(oldv, id@, title@, now).take(i as int),
                found <==> exists|m: int| 0 <= m < i && (#[trigger] oldv[m]).id == id@,
            decreases oldv.len() - i,
        {
            let n = &self.notes[i];
            if n.id.eq(id) {
                found = true;
                let mut nn = n.duplicate();
                let mut t = String::new();
                t.append(title);
                nn.title = t;
                nn.updated_at = now;
                let ghost nnv = nn@;
                let ghost prevv = notes_v2_view(new_notes@);
                new_notes.push(nn);
                proof {
                    assert(oldv[i as int].id == id@);
                    assert(nnv == with_title(oldv[i as int], title@, now));
                    assert(notes_v2_view(new_notes@) =~= prevv.push(nnv));
                    assert(prevv.push(nnv) =~= titled_notes(oldv, id@, title@, now).take(i + 1));
                }
            } else {
                let ghost prevv = notes_v2_view(new_notes@);
                new_notes.push(n.duplicate());
                proof {
                    assert(oldv[i as int].id != id@);
                    assert(notes_v2_view(new_notes@) =~= prevv.push(oldv[i as int]));
                    assert(prevv.push(oldv[i as int]) =~= titled_notes(
                        oldv,
                        id@,
                        title@,
                        now,
                    ).take(i + 1));
                }
            }
            i = i + 1;
        }
        self.notes = new_notes;
        proof {
            assert(titled_notes(oldv, id@, title@, now).take(oldv.len() as int) =~= titled_notes(
                oldv,
                id@,
                title@,
                now,
            ));
        }
        found
    }

    /// Flip the favorite flag of the note with this id to the opposite of
    /// `current`; reports whether one was there.
    pub fn toggle_favorite(&mut self, id: &String, current: bool) -> (found: bool)
        ensures
            final(self)@.notes == favored_notes(old(self)@.notes, id@, current),
            final(self)@.schema_version == old(self)@.schema_version,
            found <==> exists|m: int|
                0 <= m < old(self)@.notes.len() && (#[trigger] old(self)@.notes[m]).id == id@,
    {
        let ghost oldv = self@.notes;
        let mut new_notes: Vec<NoteV2> = Vec::new();
        let mut found: bool = false;
        let mut i: usize = 0;
        while i < self.notes.len()
            invariant
                oldv == notes_v2_view(self.notes@),
                i <= oldv.len(),
                notes_v2_view(new_notes@) == favored_notes(oldv, id@, current).take(i as int),
                found <==> exists|m: int| 0 <= m < i && (#[trigger] oldv[m]).id == id@,
            decreases oldv.len() - i,
        {
            let n = &self.notes[i];
            if n.id.eq(id) {
                found = true;
                let mut nn = n.duplicate();
                nn.is_favorite = !current;
                let ghost nnv = nn@;
                let ghost prevv = notes_v2_view(new_notes@);
                new_notes.push(nn);
                proof {
                    assert(oldv[i as int].id == id@);
                    assert(nnv == with_favorite(oldv[i as int], current));
                    assert(notes_v2_view(new_notes@) =~= prevv.push(nnv));
                    assert(prevv.push(nnv) =~= favored_notes(oldv, id@, current).take(i + 1));
                }
            } else {
                let ghost prevv = notes_v2_view(new_notes@);
                new_notes.push(n.duplicate());
                proof {
                    assert(oldv[i as int].id != id@);
                    assert(notes_v2_view(new_notes@) =~= prevv.push(oldv[i as int]));
                    assert(prevv.push(oldv[i as int]) =~= favored_notes(oldv, id@, current).take(
                        i + 1,
                    ));
                }
            }
            i = i + 1;
        }
        self.notes = new_notes;
        proof {
            assert(favored_notes(oldv, id@, current).take(oldv.len() as int) =~= favored_notes(
                oldv,
                id@,
                current,
            ));
        }
        found
    }

    /// Protect the note with this id by a password hash; reports whether one
    /// was there.
    pub fn set_access_control(&mut self, id: &String, hash: &String) -> (found: bool)
        ensures
            final(self)@.notes == protected_notes(old(self)@.notes, id@, hash@),
            final(self)@.schema_version == old(self)@.schema_version,
            found <==> exists|m: int|
                0 <= m < old(self)@.notes.len() && (#[trigger] old(self)@.notes[m]).id == id@,
    {
        let ghost oldv = self@.notes;
        let mut new_notes: Vec<NoteV2> = Vec::new();
        let mut found: bool = false;
        let mut i: usize = 0;
        while i < self.notes.len()
            invariant
                oldv == notes_v2_view(self.notes@),
                i <= oldv.len(),
                notes_v2_view(new_notes@) == protected_notes(oldv, id@, hash@).take(i as int),
                found <==> exists|m: int| 0 <= m < i && (#[trigger] oldv[m]).id == id@,
            decreases oldv.len() - i,
        {
            let n = &self.notes[i];
            if n.id.eq(id) {
                found = true;
                let mut nn = n.duplicate();
                nn.access_control = Some(AccessControl { password: hash.clone() });
                let ghost nnv = nn@;
                let ghost prevv = notes_v2_view(new_notes@);
                new_notes.push(nn);
                proof {
                    assert(oldv[i as int].id == id@);
                    assert(nnv == with_protection(oldv[i as int], hash@));
                    assert(notes_v2_view(new_notes@) =~= prevv.push(nnv));
                    assert(prevv.push(nnv) =~= protected_notes(oldv, id@, hash@).take(i + 1));
                }
            } else {
                let ghost prevv = notes_v2_view(new_notes@);
                new_notes.push(n.duplicate());
                proof {
                    assert(oldv[i as int].id != id@);
                    assert(notes_v2_view(new_notes@) =~= prevv.push(oldv[i as int]));
                    assert(prevv.push(oldv[i as int]) =~= protected_notes(oldv, id@, hash@).take(
                        i + 1,
                    ));
                }
            }
            i = i + 1;
        }
        self.notes = new_notes;
        proof {
            assert(protected_notes(oldv, id@, hash@).take(oldv.len() as int) =~= protected_notes(
                oldv,
                id@,
                hash@,
            ));
        }
        found
    }
}

// ------------------------------------------------------------------
// Case folding and search
// ------------------------------------------------------------------

/// What `str::to_lowercase` returns for these characters.
pub uninterp spec fn lower_of(s: Seq<char>) -> Seq<char>;

/// Relies on `str::to_lowercase`: the result depends on the characters
/// alone.
#[verifier::external_body]
fn lowercase(s: &str) -> (r: String)
    ensures
        r@ == lower_of(s@),
{
    s.to_lowercase()
}

/// The note matches a search: its folded title contains the folded term.
pub open spec fn note_matches(n: NoteV2V, folded_term: Seq<char>) -> bool {
    crate::text::contains_seq(lower_of(n.title), folded_term)
}

/// The notes whose folded title contains the folded term, in order.
pub open spec fn searched_notes(ns: Seq<NoteV2V>, folded_term: Seq<char>) -> Seq<NoteV2V>
    decreases ns.len(),
{
    if ns.len() == 0 {
        Seq::empty()
    } else {
        searched_notes(ns.drop_last(), folded_term) + if note_matches(ns.last(), folded_term) {
            seq![ns.last()]
        } else {
            Seq::empty()
        }
    }
}

impl DatabaseV2 {
    /// The notes whose title contains the search term, compared after case
    /// folding both sides.
    pub fn search_notes(&self, term: &str) -> (r: Vec<NoteV2>)
        ensures
            notes_v2_view(r@) == searched_notes(notes_v2_view(self.notes@), lower_of(term@)),
    {
        let ghost oldv = notes_v2_view(self.notes@);
        let folded = lowercase(term);
        let needle = crate::text::str_chars(folded.as_str());
        let mut out: Vec<NoteV2> = Vec::new();
        let mut i: usize = 0;
        while i < self.notes.len()
            invariant
                oldv == notes_v2_view(self.notes@),
                i <= oldv.len(),
                needle@ == lower_of(term@),
                notes_v2_view(out@) == searched_notes(oldv.take(i as int), lower_of(term@)),
            decreases oldv.len() - i,
        {
            let n = &self.notes[i];
            let folded_title = lowercase(n.title.as_str());
            let hay = crate::text::str_chars(folded_title.as_str());
            proof {
                assert(oldv.take(i + 1).drop_last() =~= oldv.take(i as int));
                assert(oldv.take(i + 1).last() == oldv[i as int]);
            }
            if crate::text::contains_chars(&hay, &needle) {
                out.push(n.duplicate());
                proof {
                    assert(notes_v2_view(out@) =~= notes_v2_view(out@.drop_last()).push(
                        oldv[i as int],
                    ));
                    assert(notes_v2_view(out@) =~= searched_notes(
                        oldv.take(i + 1),
                        lower_of(term@),
                    ));
                }
            } else {
                proof {
                    assert(notes_v2_view(out@) + Seq::<NoteV2V>::empty() =~= notes_v2_view(out@));
                    assert(notes_v2_view(out@) =~= searched_notes(
                        oldv.take(i + 1),
                        lower_of(term@),
                    ));
                }
            }
            i = i + 1;
        }
        proof {
            assert(oldv.take(oldv.len() as int) =~= oldv);
        }
        out
    }
}

// ------------------------------------------------------------------
// Password protection
// ------------------------------------------------------------------

/// What hashing this password with this salt under default parameters
/// returns: a function of the two arguments alone.
pub uninterp spec fn argon2_hash_of(password: Seq<char>, salt: Seq<char>) -> Seq<char>;

/// Whether this password verifies against this stored hash string: a
/// function of the two arguments alone.
pub uninterp spec fn argon2_verifies(password: Seq<char>, hash: Seq<char>) -> bool;

/// Relies on `Argon2::hash_password` with default parameters over
/// `SaltString::from_b64`: deterministic in the password and the salt;
/// nothing when the salt is not valid B64.
#[verifier::external_body]
fn argon2_hash(password: &str, salt: &str) -> (r: Option<String>)
    ensures
        r is Some ==> r->0@ == argon2_hash_of(password@, salt@),
{
    let s = match argon2::password_hash::SaltString::from_b64(salt) {
        Ok(s) => s,
        Err(_) => return None,
    };
    match argon2::PasswordHasher::hash_password(&argon2::Argon2::default(), password.as_bytes(), &s)
    {
        Ok(h) => Some(h.to_string()),
        Err(_) => None,
    }
}

/// Relies on `PasswordHash::new` and `Argon2::verify_password`:
/// deterministic in the password and the stored hash string; an unparseable
/// hash never verifies.
#[verifier::external_body]
fn argon2_verify(password: &str, hash: &str) -> (r: bool)
    ensures
        r == argon2_verifies(password@, hash@),
{
    match argon2::password_hash::PasswordHash::new(hash) {
        Ok(parsed) => argon2::PasswordVerifier::verify_password(
            &argon2::Argon2::default(),
            password.as_bytes(),
            &parsed,
        ).is_ok(),
        Err(_) => false,
    }
}

/// Relies on `SaltString::encode_b64` over the sixteen random bytes of a
/// fresh `Uuid::new_v4`: a random salt in B64 form; nothing else can be said
/// of a random value.
#[verifier::external_body]
fn generate_salt() -> (r: String)
{
    let entropy = uuid::Uuid::new_v4();
    match argon2::password_hash::SaltString::encode_b64(entropy.as_bytes()) {
        Ok(s) => s.to_string(),
        Err(_) => String::new(),
    }
}

/// Relies on `Uuid::new_v4`: a fresh random id, rendered in the hyphenated
/// form, which is always 36 characters.
#[verifier::external_body]
fn fresh_note_id() -> (r: String)
    ensures
        r@.len() == 36,
{
    uuid::Uuid::new_v4().to_string()
}

impl DatabaseV2 {
    /// Create a fresh note from a submitted entry: a random id, both
    /// timestamps set to the clock's answer, no protection, not favorite, no
    /// tags.  Returns the new note's id.
    pub fn create_note(&mut self, entry: NoteEntry) -> (r: String)
        ensures
            r@.len() == 36,
            exists|now: u64|
                final(self)@.notes == upsert_note(
                    old(self)@.notes,
                    NoteV2V {
                        id: r@,
                        title: entry.title@,
                        created_at: now,
                        updated_at: now,
                        access_control: None,
                        is_favorite: false,
                        tags: Seq::empty(),
                        note_type: entry.note_type,
                    },
                ),
            final(self)@.schema_version == old(self)@.schema_version,
            db_wf(old(self)@.notes) ==> db_wf(final(self)@.notes),
    {
        let id = fresh_note_id();
        let now = crate::fsio::now_millis();
        let note = NoteV2 {
            id: id.clone(),
            title: entry.title,
            created_at: now,
            updated_at: now,
            access_control: None,
            is_favorite: false,
            tags: Vec::new(),
            note_type: entry.note_type,
        };
        proof {
            assert(note@.tags =~= Seq::<Seq<char>>::empty());
        }
        self.insert_note(note);
        id
    }

    /// Hash the password with a fresh random salt and protect the note with
    /// this id by it.  When the note is missing or hashing fails, nothing
    /// changes.
    pub fn protect_note(&mut self, id: &String, password: &str) -> (r: bool)
        ensures
            r ==> exists|salt: Seq<char>|
                final(self)@.notes == protected_notes(
                    old(self)@.notes,
                    id@,
                    argon2_hash_of(password@, salt),
                ),
            !r ==> final(self)@.notes == old(self)@.notes,
            final(self)@.schema_version == old(self)@.schema_version,
    {
        let salt = generate_salt();
        let hash = match argon2_hash(password, salt.as_str()) {
            Some(h) => h,
            None => {
                return false;
            },
        };
        let found = self.set_access_control(id, &hash);
        if !found {
            proof {
                assert(self@.notes =~= old(self)@.notes);
            }
        }
        found
    }

    /// Whether this password opens the note with this id: false for a
    /// missing note and for one without password protection.
    pub fn verify_note_password(&self, id: &String, password: &str) -> (r: bool)
        requires
            db_wf(self@.notes),
        ensures
            r == exists|m: int|
                0 <= m < self@.notes.len() && (#[trigger] self@.notes[m]).id == id@
                    && self@.notes[m].access_control is Some && argon2_verifies(
                    password@,
                    self@.notes[m].access_control->0.password,
                ),
    {
        match find_note_index(&self.notes, id) {
            Some(idx) => {
                proof {
                    let ns = self@.notes;
                    assert(ns[idx as int].id == id@);
                    assert forall|m: int|
                        0 <= m < ns.len() && m != idx implies (#[trigger] ns[m]).id != id@ by {
                        if m < idx {
                            assert(self.notes@[m]@.id != id@);
                        } else {
                            assert(ns[idx as int].id != ns[m].id);
                        }
                    }
                }
                match &self.notes[idx].access_control {
                    Some(ac) => {
                        let r = argon2_verify(password, ac.password.as_str());
                        proof {
                            assert(self@.notes[idx as int].access_control == Some(ac@));
                        }
                        r
                    },
                    None => {
                        proof {
                            assert(self@.notes[idx as int].access_control is None);
                        }
                        false
                    },
                }
            },
            None => {
                proof {
                    assert(forall|m: int|
                        0 <= m < self@.notes.len() ==> (#[trigger] self@.notes[m]).id
                            == self.notes@[m]@.id);
                }
                false
            },
        }
    }
}

// ------------------------------------------------------------------
// The flat notes-manager list
// ------------------------------------------------------------------

/// The metadata entry a manager-list record is reported as.
pub open spec fn metadata_of_note(n: NoteV1V) -> NoteMetadataV {
    NoteMetadataV {
        title: n.title,
        tag: n.tag,
        created_at: n.created_at,
        updated_at: n.updated_at,
        file_extension: n.file_extension,
    }
}

pub open spec fn metadata_list_of(ns: Seq<NoteV1V>) -> Seq<NoteMetadataV> {
    Seq::new(ns.len(), |i: int| metadata_of_note(ns[i]))
}

/// The element-wise view of a metadata vector.
pub open spec fn meta_view(v: Seq<NoteMetadata>) -> Seq<NoteMetadataV> {
    Seq::new(v.len(), |i: int| v[i]@)
}

fn metadata_of(n: &NoteV1) -> (r: NoteMetadata)
    ensures
        r@ == metadata_of_note(n@),
{
    NoteMetadata {
        title: n.title.clone(),
        tag: n.tag.clone(),
        created_at: n.created_at,
        updated_at: n.updated_at,
        file_extension: n.file_extension.clone(),
    }
}

/// The first record carrying this tag, scanning front to back.
pub open spec fn find_by_tag(ns: Seq<NoteV1V>, tag: Seq<char>) -> Option<NoteV1V>
    decreases ns.len(),
{
    if ns.len() == 0 {
        None
    } else if ns[0].tag == tag {
        Some(ns[0])
    } else {
        find_by_tag(ns.drop_first(), tag)
    }
}

/// `n` with a new title and update time; everything else unchanged.
pub open spec fn with_note_title(n: NoteV1V, title: Seq<char>, now: u64) -> NoteV1V {
    NoteV1V { title, updated_at: now, ..n }
}

/// The list with its first record carrying this tag retitled, or nothing
/// when no record carries it.
pub open spec fn retitle_first(
    ns: Seq<NoteV1V>,
    tag: Seq<char>,
    title: Seq<char>,
    now: u64,
) -> Option<Seq<NoteV1V>>
    decreases ns.len(),
{
    if ns.len() == 0 {
        None
    } else if ns[0].tag == tag {
        Some(seq![with_note_title(ns[0], title, now)] + ns.drop_first())
    } else {
        match retitle_first(ns.drop_first(), tag, title, now) {
            None => None,
            Some(rest) => Some(seq![ns[0]] + rest),
        }
    }
}

proof fn lemma_retitle_first(ns: Seq<NoteV1V>, tag: Seq<char>, title: Seq<char>, now: u64, j: int)
    requires
        0 <= j < ns.len(),
        ns[j].tag == tag,
        forall|k: int| 0 <= k < j ==> (#[trigger] ns[k]).tag != tag,
    ensures
        retitle_first(ns, tag, title, now) == Some(ns.update(j, with_note_title(ns[j], title, now))),
    decreases ns.len(),
{
    if j == 0 {
        assert(seq![with_note_title(ns[0], title, now)] + ns.drop_first() =~= ns.update(
            0,
            with_note_title(ns[0], title, now),
        ));
    } else {
        assert(ns[0].tag != tag);
        assert(forall|k: int| 0 <= k < j - 1 ==> (#[trigger] ns.drop_first()[k]).tag != tag);
        assert(ns.drop_first()[j - 1] == ns[j]);
        lemma_retitle_first(ns.drop_first(), tag, title, now, j - 1);
        assert(seq![ns[0]] + ns.drop_first().update(j - 1, with_note_title(ns[j], title, now))
            =~= ns.update(j, with_note_title(ns[j], title, now)));
    }
}

/// The records that do not carry this tag, in their original order.
pub open spec fn notes_without_tag(ns: Seq<NoteV1V>, tag: Seq<char>) -> Seq<NoteV1V>
    decreases ns.len(),
{
    if ns.len() == 0 {
        Seq::empty()
    } else {
        notes_without_tag(ns.drop_last(), tag) + if ns.last().tag != tag {
            seq![ns.last()]
        } else {
            Seq::empty()
        }
    }
}

/// The record matches a search: its folded title contains the folded term.
pub open spec fn note_v1_matches(n: NoteV1V, folded_term: Seq<char>) -> bool {
    crate::text::contains_seq(lower_of(n.title), folded_term)
}

/// The records whose folded title contains the folded term, in order.
pub open spec fn searched_v1(ns: Seq<NoteV1V>, folded_term: Seq<char>) -> Seq<NoteV1V>
    decreases ns.len(),
{
    if ns.len() == 0 {
        Seq::empty()
    } else {
        searched_v1(ns.drop_last(), folded_term) + if note_v1_matches(ns.last(), folded_term) {
            seq![ns.last()]
        } else {
            Seq::empty()
        }
    }
}

fn clone_note_v1(n: &NoteV1) -> (r: NoteV1)
    ensures
        r@ == n@,
{
    NoteV1 {
        title: n.title.clone(),
        tag: n.tag.clone(),
        created_at: n.created_at,
        updated_at: n.updated_at,
        file_extension: n.file_extension.clone(),
    }
}

/// The manager of the flat note-metadata list and of the note-content files.
pub struct NotesManager;

impl NotesManager {
    /// Read a note's text; a missing or unreadable file is an error.
    pub fn read_note_content(file_path: String) -> (r: Result<String, NoteError>)
    {
        if !crate::fsio::path_exists(file_path.as_str()) {
            return Err(
                NoteError::new(
                    "It seems the note does not exist",
                    "file not found",
                    "read_note_content",
                ),
            );
        }
        match crate::fsio::read_file_string(file_path.as_str()) {
            Some(c) => Ok(c),
            None => Err(
                NoteError::new("Error reading the note file", "read failed", "read_note_content"),
            ),
        }
    }

    /// The whole metadata list held in the manager-file content: an absent
    /// file means an empty list, unparseable content is an error.
    pub fn read_notes_metadata(content: Option<&str>) -> (r: Result<Vec<NoteMetadata>, NoteError>)
        ensures
            match r {
                Ok(v) => match content {
                    None => v@.len() == 0,
                    Some(c) => legacy_of_chars(c@) is Some && meta_view(v@) == metadata_list_of(
                        legacy_of_chars(c@)->0,
                    ),
                },
                Err(_) => content is Some && legacy_of_chars(content->0@) is None,
            },
    {
        let c = match content {
            None => {
                return Ok(Vec::new());
            },
            Some(c) => c,
        };
        let notes = match crate::codec::parse_legacy_str(c) {
            Some(ns) => ns,
            None => {
                return Err(
                    NoteError::new(
                        "Error reading the manager file",
                        "unparseable content",
                        "read_notes_metadata",
                    ),
                );
            },
        };
        let ghost nsv = notes_view(notes@);
        let mut out: Vec<NoteMetadata> = Vec::new();
        let mut i: usize = 0;
        while i < notes.len()
            invariant
                nsv == notes_view(notes@),
                i <= nsv.len(),
                meta_view(out@) == metadata_list_of(nsv).take(i as int),
            decreases nsv.len() - i,
        {
            let ghost prevv = meta_view(out@);
            out.push(metadata_of(&notes[i]));
            proof {
                assert(nsv[i as int] == notes@[i as int]@);
                assert(meta_view(out@) =~= prevv.push(metadata_of_note(nsv[i as int])));
                assert(prevv.push(metadata_of_note(nsv[i as int])) =~= metadata_list_of(nsv).take(
                    i + 1,
                ));
            }
            i = i + 1;
        }
        proof {
            assert(metadata_list_of(nsv).take(nsv.len() as int) =~= metadata_list_of(nsv));
        }
        Ok(out)
    }

    /// The first metadata entry carrying this tag; unparseable content or a
    /// missing tag is an error.
    pub fn read_note_metadata(content: &str, tag: &String) -> (r: Result<NoteMetadata, NoteError>)
        ensures
            match r {
                Ok(m) => legacy_of_chars(content@) is Some && match find_by_tag(
                    legacy_of_chars(content@)->0,
                    tag@,
                ) {
                    Some(n) => m@ == metadata_of_note(n),
                    None => false,
                },
                Err(_) => legacy_of_chars(content@) is None || find_by_tag(
                    legacy_of_chars(content@)->0,
                    tag@,
                ) is None,
            },
    {
        let notes = match crate::codec::parse_legacy_str(content) {
            Some(ns) => ns,
            None => {
                return Err(
                    NoteError::new(
                        "Error reading the manager file",
                        "unparseable content",
                        "read_note_metadata",
                    ),
                );
            },
        };
        let ghost nsv = notes_view(notes@);
        proof {
            assert(nsv.skip(0) =~= nsv);
        }
        let mut i: usize = 0;
        while i < notes.len()
            invariant
                nsv == notes_view(notes@),
                legacy_of_chars(content@) == Some(nsv),
                i <= nsv.len(),
                find_by_tag(nsv, tag@) == find_by_tag(nsv.skip(i as int), tag@),
            decreases nsv.len() - i,
        {
            proof {
                assert(nsv.skip(i as int)[0] == nsv[i as int]);
                assert(nsv[i as int] == notes@[i as int]@);
                assert(nsv.skip(i as int).drop_first() =~= nsv.skip(i + 1));
            }
            if notes[i].tag.eq(tag) {
                proof {
                    assert(find_by_tag(nsv.skip(i as int), tag@) == Some(nsv[i as int]));
                }
                return Ok(metadata_of(&notes[i]));
            }
            i = i + 1;
        }
        proof {
            assert(nsv.skip(nsv.len() as int) =~= Seq::<NoteV1V>::empty());
        }
        Err(NoteError::new("File with the specified tag not found", "missing tag", "read_note_metadata"))
    }

    /// The manager-file text after appending a fresh entry with the given
    /// tag, title and extension, created and updated now.  An absent file
    /// starts from an empty list; unparseable content is an error.
    pub fn write_note_metadata(
        content: Option<&str>,
        tag: &String,
        title: &String,
        file_extension: &String,
        now: u64,
    ) -> (r: Result<String, NoteError>)
        ensures
            match r {
                Ok(s) => {
                    let entry = NoteV1V {
                        title: title@,
                        tag: tag@,
                        created_at: now,
                        updated_at: now,
                        file_extension: file_extension@,
                    };
                    match content {
                        None => s@ == crate::codec::ser_legacy(seq![entry]),
                        Some(c) => legacy_of_chars(c@) is Some && s@ == crate::codec::ser_legacy(
                            legacy_of_chars(c@)->0.push(entry),
                        ),
                    }
                },
                Err(_) => content is Some && legacy_of_chars(content->0@) is None,
            },
    {
        let mut entries: Vec<NoteV1> = match content {
            None => Vec::new(),
            Some(c) => match crate::codec::parse_legacy_str(c) {
                Some(ns) => ns,
                None => {
                    return Err(
                        NoteError::new(
                            "Error reading the manager file",
                            "unparseable content",
                            "write_note_metadata",
                        ),
                    );
                },
            },
        };
        let ghost prevv = notes_view(entries@);
        entries.push(
            NoteV1 {
                title: title.clone(),
                tag: tag.clone(),
                created_at: now,
                updated_at: now,
                file_extension: file_extension.clone(),
            },
        );
        proof {
            assert(notes_view(entries@) =~= prevv.push(
                NoteV1V {
                    title: title@,
                    tag: tag@,
                    created_at: now,
                    updated_at: now,
                    file_extension: file_extension@,
                },
            ));
            if content is None {
                assert(prevv =~= Seq::<NoteV1V>::empty());
                assert(notes_view(entries@) =~= seq![
                    NoteV1V {
                        title: title@,
                        tag: tag@,
                        created_at: now,
                        updated_at: now,
                        file_extension: file_extension@,
                    },
                ]);
            }
        }
        Ok(crate::codec::serialize_legacy(&entries))
    }

    /// The manager-file text after retitling the first entry carrying this
    /// tag; unparseable content or a missing tag is an error.
    pub fn edit_note_metadata(content: &str, tag: &String, title: &String, now: u64) -> (r: Result<
        String,
        NoteError,
    >)
        ensures
            match r {
                Ok(s) => legacy_of_chars(content@) is Some && match retitle_first(
                    legacy_of_chars(content@)->0,
                    tag@,
                    title@,
                    now,
                ) {
                    Some(ns2) => s@ == crate::codec::ser_legacy(ns2),
                    None => false,
                },
                Err(_) => legacy_of_chars(content@) is None || retitle_first(
                    legacy_of_chars(content@)->0,
                    tag@,
                    title@,
                    now,
                ) is None,
            },
    {
        let mut entries: Vec<NoteV1> = match crate::codec::parse_legacy_str(content) {
            Some(ns) => ns,
            None => {
                return Err(
                    NoteError::new(
                        "Error finding the manager file",
                        "unparseable content",
                        "edit_note_metadata",
                    ),
                );
            },
        };
        let ghost nsv = notes_view(entries@);
        let mut j: usize = 0;
        let found: bool;
        loop
            invariant
                nsv == notes_view(entries@),
                j <= nsv.len(),
                forall|k: int| 0 <= k < j ==> (#[trigger] nsv[k]).tag != tag@,
            ensures
                j <= nsv.len(),
                forall|k: int| 0 <= k < j ==> (#[trigger] nsv[k]).tag != tag@,
                found ==> j < nsv.len() && nsv[j as int].tag == tag@,
                !found ==> j == nsv.len(),
            decreases nsv.len() - j,
        {
            if j >= entries.len() {
                found = false;
                break ;
            }
            proof {
                assert(nsv[j as int] == entries@[j as int]@);
            }
            if entries[j].tag.eq(tag) {
                found = true;
                break ;
            }
            j = j + 1;
        }
        if !found {
            proof {
                if retitle_first(nsv, tag@, title@, now) is Some {
                    lemma_retitle_none(nsv, tag@, title@, now);
                }
            }
            return Err(
                NoteError::new(
                    "Entry with the specified tag not found",
                    "missing tag",
                    "edit_note_metadata",
                ),
            );
        }
        let old_entry = entries.remove(j);
        let mut updated = old_entry;
        let mut t = String::new();
        t.append(title.as_str());
        updated.title = t;
        updated.updated_at = now;
        let ghost updv = updated@;
        entries.insert(j, updated);
        proof {
            assert(updv == with_note_title(nsv[j as int], title@, now));
            lemma_retitle_first(nsv, tag@, title@, now, j as int);
            assert(notes_view(entries@) =~= nsv.update(j as int, updv));
        }
        Ok(crate::codec::serialize_legacy(&entries))
    }

    /// The manager-file text after dropping every entry carrying this tag;
    /// unparseable content is an error.
    pub fn remove_note_metadata(content: &str, tag: &String) -> (r: Result<String, NoteError>)
        ensures
            match r {
                Ok(s) => legacy_of_chars(content@) is Some && s@ == crate::codec::ser_legacy(
                    notes_without_tag(legacy_of_chars(content@)->0, tag@),
                ),
                Err(_) => legacy_of_chars(content@) is None,
            },
    {
        let entries: Vec<NoteV1> = match crate::codec::parse_legacy_str(content) {
            Some(ns) => ns,
            None => {
                return Err(
                    NoteError::new(
                        "Error finding the manager file",
                        "unparseable content",
                        "remove_note_metadata",
                    ),
                );
            },
        };
        let ghost nsv = notes_view(entries@);
        let mut out: Vec<NoteV1> = Vec::new();
        let mut i: usize = 0;
        while i < entries.len()
            invariant
                nsv == notes_view(entries@),
                i <= nsv.len(),
                notes_view(out@) == notes_without_tag(nsv.take(i as int), tag@),
            decreases nsv.len() - i,
        {
            proof {
                assert(nsv[i as int] == entries@[i as int]@);
                assert(nsv.take(i + 1).drop_last() =~= nsv.take(i as int));
                assert(nsv.take(i + 1).last() == nsv[i as int]);
            }
            if !entries[i].tag.eq(tag) {
                let ghost prevv = notes_view(out@);
                out.push(clone_note_v1(&entries[i]));
                proof {
                    assert(notes_view(out@) =~= prevv.push(nsv[i as int]));
                    assert(notes_view(out@) =~= notes_without_tag(nsv.take(i + 1), tag@));
                }
            } else {
                proof {
                    assert(notes_view(out@) + Seq::<NoteV1V>::empty() =~= notes_view(out@));
                    assert(notes_view(out@) =~= notes_without_tag(nsv.take(i + 1), tag@));
                }
            }
            i = i + 1;
        }
        proof {
            assert(nsv.take(nsv.len() as int) =~= nsv);
        }
        Ok(crate::codec::serialize_legacy(&out))
    }

    /// The metadata entries whose title contains the search term, compared
    /// after case folding both sides; unparseable content is an error.
    pub fn search_notes_metadata(content: &str, term: &str) -> (r: Result<
        Vec<NoteMetadata>,
        NoteError,
    >)
        ensures
            match r {
                Ok(v) => legacy_of_chars(content@) is Some && meta_view(v@) == metadata_list_of(
                    searched_v1(legacy_of_chars(content@)->0, lower_of(term@)),
                ),
                Err(_) => legacy_of_chars(content@) is None,
            },
    {
        let entries: Vec<NoteV1> = match crate::codec::parse_legacy_str(content) {
            Some(ns) => ns,
            None => {
                return Err(
                    NoteError::new(
                        "File manager not found",
                        "unparseable content",
                        "search_notes_metadata",
                    ),
                );
            },
        };
        let ghost nsv = notes_view(entries@);
        let folded = lowercase(term);
        let needle = crate::text::str_chars(folded.as_str());
        let mut out: Vec<NoteMetadata> = Vec::new();
        let mut i: usize = 0;
        while i < entries.len()
            invariant
                nsv == notes_view(entries@),
                i <= nsv.len(),
                needle@ == lower_of(term@),
                meta_view(out@) == metadata_list_of(searched_v1(nsv.take(i as int), lower_of(term@))),
            decreases nsv.len() - i,
        {
            let n = &entries[i];
            let folded_title = lowercase(n.title.as_str());
            let hay = crate::text::str_chars(folded_title.as_str());
            proof {
                assert(nsv[i as int] == entries@[i as int]@);
                assert(nsv.take(i + 1).drop_last() =~= nsv.take(i as int));
                assert(nsv.take(i + 1).last() == nsv[i as int]);
            }
            if crate::text::contains_chars(&hay, &needle) {
                let ghost prevv = meta_view(out@);
                out.push(metadata_of(n));
                proof {
                    assert(meta_view(out@) =~= prevv.push(metadata_of_note(nsv[i as int])));
                    assert(searched_v1(nsv.take(i + 1), lower_of(term@)) =~= searched_v1(
                        nsv.take(i as int),
                        lower_of(term@),
                    ).push(nsv[i as int]));
                    assert(meta_view(out@) =~= metadata_list_of(
                        searched_v1(nsv.take(i + 1), lower_of(term@)),
                    ));
                }
            } else {
                proof {
                    assert(searched_v1(nsv.take(i + 1), lower_of(term@)) + Seq::<
                        NoteV1V,
                    >::empty() =~= searched_v1(nsv.take(i + 1), lower_of(term@)));
                    assert(meta_view(out@) =~= metadata_list_of(
                        searched_v1(nsv.take(i + 1), lower_of(term@)),
                    ));
                }
            }
            i = i + 1;
        }
        proof {
            assert(nsv.take(nsv.len() as int) =~= nsv);
        }
        Ok(out)
    }

    /// Write a note's text in one atomic step.
    pub fn write_note(file_path: String, content: String) -> (r: Result<bool, NoteError>)
        ensures
            crate::atomic::parent_dir(file_path@) is None ==> r is Err,
    {
        match crate::atomic::atomic_write(file_path.as_str(), content.as_str()) {
            Ok(_) => Ok(true),
            Err(crate::atomic::StoreError::InvalidPath) => Err(
                NoteError::new("Error writing the note file", "invalid path", "write_note"),
            ),
            Err(crate::atomic::StoreError::Io) => Err(
                NoteError::new("Error writing the note file", "write failed", "write_note"),
            ),
        }
    }

    /// Replace a note's text in one atomic step.
    pub fn edit_note_content(note_path: String, content: String) -> (r: Result<bool, NoteError>)
        ensures
            crate::atomic::parent_dir(note_path@) is None ==> r is Err,
    {
        match crate::atomic::atomic_write(note_path.as_str(), content.as_str()) {
            Ok(_) => Ok(true),
            Err(crate::atomic::StoreError::InvalidPath) => Err(
                NoteError::new("Error writing the note file", "invalid path", "edit_note_content"),
            ),
            Err(crate::atomic::StoreError::Io) => Err(
                NoteError::new("Error writing the note file", "write failed", "edit_note_content"),
            ),
        }
    }

    /// Delete a note's backing file.
    pub fn remove_note(note_path: String) -> (r: Result<bool, NoteError>)
    {
        if crate::fsio::remove_file(note_path.as_str()) {
            Ok(true)
        } else {
            Err(NoteError::new("Error removing the note file", "remove failed", "remove_note"))
        }
    }
}

proof fn lemma_retitle_none(ns: Seq<NoteV1V>, tag: Seq<char>, title: Seq<char>, now: u64)
    requires
        forall|k: int| 0 <= k < ns.len() ==> (#[trigger] ns[k]).tag != tag,
    ensures
        retitle_first(ns, tag, title, now) is None,
    decreases ns.len(),
{
    if ns.len() > 0 {
        assert(forall|k: int|
            0 <= k < ns.drop_first().len() ==> (#[trigger] ns.drop_first()[k]).tag != tag);
        lemma_retitle_none(ns.drop_first(), tag, title, now);
    }
}

} // verus!
