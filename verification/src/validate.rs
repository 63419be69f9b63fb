//! SessionValidator: removes references to files that no longer exist and
//! repairs the selected-tab id.
//!
//! The filesystem answers arrive as a vector of paths and a parallel vector
//! of answers; everything the validator decides from those answers is
//! verified here.

use vstd::prelude::*;
use crate::model::EditorSessionV;
use crate::model::LocalFileRecord;
use crate::model::LocalFileRecordV;
use crate::model::PersistedState;
use crate::model::PersistedStateV;
use crate::model::SessionTab;
use crate::model::SessionTabV;

verus! {

/// The element-wise view of a path vector.
pub open spec fn paths_view(ps: Seq<String>) -> Seq<Seq<char>> {
    Seq::new(ps.len(), |i: int| ps[i]@)
}

/// `p` was probed and confirmed to exist: it stands at some index of `paths`
/// whose answer is `true`.
pub open spec fn path_confirmed(paths: Seq<Seq<char>>, mask: Seq<bool>, p: Seq<char>) -> bool {
    exists|i: int| 0 <= i < paths.len() && i < mask.len() && paths[i] == p && mask[i]
}

/// A tab survives validation when it is untitled or its path was confirmed.
pub open spec fn tab_kept(paths: Seq<Seq<char>>, mask: Seq<bool>, t: SessionTabV) -> bool {
    t.path is None || path_confirmed(paths, mask, t.path->0)
}

/// The tabs that survive, in their original order.
pub open spec fn kept_tabs(
    paths: Seq<Seq<char>>,
    mask: Seq<bool>,
    tabs: Seq<SessionTabV>,
) -> Seq<SessionTabV>
    decreases tabs.len(),
{
    if tabs.len() == 0 {
        Seq::empty()
    } else {
        kept_tabs(paths, mask, tabs.drop_last()) + if tab_kept(paths, mask, tabs.last()) {
            seq![tabs.last()]
        } else {
            Seq::empty()
        }
    }
}

/// The recent-file records whose path was confirmed, in their original order.
pub open spec fn kept_records(
    paths: Seq<Seq<char>>,
    mask: Seq<bool>,
    rs: Seq<LocalFileRecordV>,
) -> Seq<LocalFileRecordV>
    decreases rs.len(),
{
    if rs.len() == 0 {
        Seq::empty()
    } else {
        kept_records(paths, mask, rs.drop_last()) + if path_confirmed(paths, mask, rs.last().path) {
            seq![rs.last()]
        } else {
            Seq::empty()
        }
    }
}

/// Some tab in `tabs` carries this id.
pub open spec fn has_tab_with_id(tabs: Seq<SessionTabV>, id: Seq<char>) -> bool {
    exists|i: int| 0 <= i < tabs.len() && (#[trigger] tabs[i]).id == id
}

/// The selected-tab id after validation: an id that still names a kept tab
/// stays; otherwise the first kept tab is selected, if any.
pub open spec fn repaired_current(
    old_current: Option<Seq<char>>,
    kept: Seq<SessionTabV>,
) -> Option<Seq<char>> {
    match old_current {
        Some(id) => if has_tab_with_id(kept, id) {
            Some(id)
        } else if kept.len() > 0 {
            Some(kept[0].id)
        } else {
            None
        },
        None => if kept.len() > 0 {
            Some(kept[0].id)
        } else {
            None
        },
    }
}

/// The whole state after validation against the probe answers.
pub open spec fn validated_state(
    st: PersistedStateV,
    paths: Seq<Seq<char>>,
    mask: Seq<bool>,
) -> PersistedStateV {
    let kept = kept_tabs(paths, mask, st.session.tabs);
    PersistedStateV {
        recent_files: kept_records(paths, mask, st.recent_files),
        session: EditorSessionV {
            tabs: kept,
            current_tab_id: repaired_current(st.session.current_tab_id, kept),
        },
        schema_version: st.schema_version,
    }
}

/// `p` is referenced by the state: some tab points at it or some recent-file
/// record is keyed by it.
pub open spec fn referenced(st: PersistedStateV, p: Seq<char>) -> bool {
    (exists|i: int|
        0 <= i < st.session.tabs.len() && (#[trigger] st.session.tabs[i]).path == Some(p)) || (
    exists|i: int| 0 <= i < st.recent_files.len() && (#[trigger] st.recent_files[i]).path == p)
}

/// Whether some element of `v` has the same characters as `s`.
fn contains_string(v: &Vec<String>, s: &String) -> (r: bool)
    ensures
        r == exists|i: int| 0 <= i < v@.len() && (#[trigger] v@[i])@ == s@,
{
    let mut i: usize = 0;
    while i < v.len()
        invariant
            i <= v@.len(),
            forall|m: int| 0 <= m < i ==> (#[trigger] v@[m])@ != s@,
        decreases v@.len() - i,
    {
        if v[i].eq(s) {
            return true;
        }
        i = i + 1;
    }
    false
}

/// Some element of `v` has exactly the characters `p`.
pub open spec fn contains_path(v: Seq<String>, p: Seq<char>) -> bool {
    exists|i: int| 0 <= i < v.len() && (#[trigger] v[i])@ == p
}

/// The deduplicated union of every path a tab references and every key of
/// the recent-files map, in first-appearance order.
pub fn referenced_paths(st: &PersistedState) -> (r: Vec<String>)
    ensures
        forall|m: int| 0 <= m < r@.len() ==> referenced(st@, (#[trigger] r@[m])@),
        forall|m: int|
            0 <= m < st@.session.tabs.len() && (#[trigger] st@.session.tabs[m]).path is Some
                ==> contains_path(r@, st@.session.tabs[m].path->0),
        forall|m: int|
            0 <= m < st@.recent_files.len() ==> contains_path(
                r@,
                (#[trigger] st@.recent_files[m]).path,
            ),
        forall|i: int, j: int| 0 <= i < j < r@.len() ==> r@[i]@ != r@[j]@,
{
    let mut r: Vec<String> = Vec::new();
    let tabs = &st.session.tabs;
    let mut i: usize = 0;
    while i < tabs.len()
        invariant
            i <= tabs@.len(),
            tabs@ == st.session.tabs@,
            forall|m: int, k: int| 0 <= m < k < r@.len() ==> r@[m]@ != r@[k]@,
            forall|m: int| 0 <= m < r@.len() ==> referenced(st@, (#[trigger] r@[m])@),
            forall|m: int|
                0 <= m < i && (#[trigger] st@.session.tabs[m]).path is Some ==> contains_path(
                    r@,
                    st@.session.tabs[m].path->0,
                ),
        decreases tabs@.len() - i,
    {
        match &tabs[i].path {
            Some(p) => {
                proof {
                    assert(st@.session.tabs[i as int].path == Some(p@));
                }
                if !contains_string(&r, p) {
                    let ghost old_r = r@;
                    r.push(p.clone());
                    proof {
                        assert(r@[r@.len() - 1]@ == p@);
                        assert(forall|m: int| 0 <= m < old_r.len() ==> r@[m] == old_r[m]);
                        assert(referenced(st@, p@));
                    }
                }
            },
            None => {
                proof {
                    assert(st@.session.tabs[i as int].path is None);
                }
            },
        }
        i = i + 1;
    }
    let recents = &st.recent_files;
    let mut k: usize = 0;
    while k < recents.len()
        invariant
            k <= recents@.len(),
            recents@ == st.recent_files@,
            forall|m: int, j: int| 0 <= m < j < r@.len() ==> r@[m]@ != r@[j]@,
            forall|m: int| 0 <= m < r@.len() ==> referenced(st@, (#[trigger] r@[m])@),
            forall|m: int|
                0 <= m < st@.session.tabs.len() && (#[trigger] st@.session.tabs[m]).path is Some
                    ==> contains_path(r@, st@.session.tabs[m].path->0),
            forall|m: int|
                0 <= m < k ==> contains_path(r@, (#[trigger] st@.recent_files[m]).path),
        decreases recents@.len() - k,
    {
        let p = &recents[k].path;
        proof {
            assert(st@.recent_files[k as int].path == p@);
        }
        if !contains_string(&r, p) {
            let ghost old_r = r@;
            r.push(p.clone());
            proof {
                assert(r@[r@.len() - 1]@ == p@);
                assert(forall|m: int| 0 <= m < old_r.len() ==> r@[m] == old_r[m]);
                assert(referenced(st@, p@));
            }
        }
        k = k + 1;
    }
    r
}

/// Whether `p` stands at some probed index whose answer is `true`.
fn is_confirmed(paths: &Vec<String>, mask: &Vec<bool>, p: &String) -> (r: bool)
    ensures
        r == path_confirmed(paths_view(paths@), mask@, p@),
{
    let mut i: usize = 0;
    let n = if paths.len() < mask.len() {
        paths.len()
    } else {
        mask.len()
    };
    while i < n
        invariant
            n <= paths@.len() && n <= mask@.len(),
            n == if paths@.len() < mask@.len() {
                paths@.len() as int
            } else {
                mask@.len() as int
            },
            i <= n,
            forall|m: int| 0 <= m < i ==> !((#[trigger] paths@[m])@ == p@ && mask@[m]),
        decreases n - i,
    {
        if mask[i] && paths[i].eq(p) {
            return true;
        }
        i = i + 1;
    }
    proof {
        assert(forall|m: int|
            0 <= m < paths@.len() && m < mask@.len() ==> !((#[trigger] paths@[m])@ == p@
                && mask@[m]));
    }
    false
}

/// Prune the state against the probe answers and repair the selection, as
/// `validated_state` describes.
pub fn apply_validation(st: &mut PersistedState, paths: &Vec<String>, mask: &Vec<bool>)
    ensures
        final(st)@ == validated_state(old(st)@, paths_view(paths@), mask@),
{
    let ghost pv = paths_view(paths@);
    let ghost old_tabs = st@.session.tabs;
    let ghost old_recents = st@.recent_files;
    let mut new_tabs: Vec<SessionTab> = Vec::new();
    let tabs = &st.session.tabs;
    let mut i: usize = 0;
    while i < tabs.len()
        invariant
            pv == paths_view(paths@),
            tabs@ == st.session.tabs@,
            st@.session.tabs == old_tabs,
            i <= tabs@.len(),
            crate::model::tabs_view(new_tabs@) == kept_tabs(pv, mask@, old_tabs.take(i as int)),
        decreases tabs@.len() - i,
    {
        let t = &tabs[i];
        proof {
            assert(old_tabs[i as int] == tabs@[i as int]@);
        }
        let keep: bool;
        match &t.path {
            None => {
                keep = true;
                proof {
                    assert(old_tabs[i as int].path is None);
                }
            },
            Some(p) => {
                keep = is_confirmed(paths, mask, p);
                proof {
                    assert(old_tabs[i as int].path == Some(p@));
                }
            },
        }
        proof {
            assert(keep == tab_kept(pv, mask@, old_tabs[i as int]));
            assert(old_tabs.take(i + 1).drop_last() =~= old_tabs.take(i as int));
            assert(old_tabs.take(i + 1).last() == old_tabs[i as int]);
        }
        if keep {
            new_tabs.push(t.duplicate());
            proof {
                assert(crate::model::tabs_view(new_tabs@) =~= crate::model::tabs_view(
                    new_tabs@.drop_last(),
                ).push(old_tabs[i as int]));
                assert(crate::model::tabs_view(new_tabs@) =~= kept_tabs(
                    pv,
                    mask@,
                    old_tabs.take(i + 1),
                ));
            }
        } else {
            proof {
                assert(crate::model::tabs_view(new_tabs@) + Seq::<SessionTabV>::empty()
                    =~= crate::model::tabs_view(new_tabs@));
                assert(crate::model::tabs_view(new_tabs@) =~= kept_tabs(
                    pv,
                    mask@,
                    old_tabs.take(i + 1),
                ));
            }
        }
        i = i + 1;
    }
    proof {
        assert(old_tabs.take(old_tabs.len() as int) =~= old_tabs);
    }
    let mut new_recents: Vec<LocalFileRecord> = Vec::new();
    let recents = &st.recent_files;
    let mut k: usize = 0;
    while k < recents.len()
        invariant
            pv == paths_view(paths@),
            recents@ == st.recent_files@,
            st@.recent_files == old_recents,
            k <= recents@.len(),
            crate::model::records_view(new_recents@) == kept_records(
                pv,
                mask@,
                old_recents.take(k as int),
            ),
        decreases recents@.len() - k,
    {
        let rec = &recents[k];
        proof {
            assert(old_recents[k as int] == recents@[k as int]@);
        }
        let keep = is_confirmed(paths, mask, &rec.path);
        proof {
            assert(keep == path_confirmed(pv, mask@, old_recents[k as int].path));
            assert(old_recents.take(k + 1).drop_last() =~= old_recents.take(k as int));
            assert(old_recents.take(k + 1).last() == old_recents[k as int]);
        }
        if keep {
            new_recents.push(rec.duplicate());
            proof {
                assert(crate::model::records_view(new_recents@) =~= crate::model::records_view(
                    new_recents@.drop_last(),
                ).push(old_recents[k as int]));
                assert(crate::model::records_view(new_recents@) =~= kept_records(
                    pv,
                    mask@,
                    old_recents.take(k + 1),
                ));
            }
        } else {
            proof {
                assert(crate::model::records_view(new_recents@) + Seq::<
                    LocalFileRecordV,
                >::empty() =~= crate::model::records_view(new_recents@));
                assert(crate::model::records_view(new_recents@) =~= kept_records(
                    pv,
                    mask@,
                    old_recents.take(k + 1),
                ));
            }
        }
        k = k + 1;
    }
    proof {
        assert(old_recents.take(old_recents.len() as int) =~= old_recents);
    }
    let ghost kept = kept_tabs(pv, mask@, old_tabs);
    let new_current: Option<String> = match &st.session.current_tab_id {
        Some(id) => {
            let mut found: bool = false;
            let mut m: usize = 0;
            while m < new_tabs.len()
                invariant
                    crate::model::tabs_view(new_tabs@) == kept,
                    m <= new_tabs@.len(),
                    found <==> exists|q: int| 0 <= q < m && (#[trigger] kept[q]).id == id@,
                decreases new_tabs@.len() - m,
            {
                if new_tabs[m].id.eq(id) {
                    found = true;
                    proof {
                        assert(kept[m as int].id == id@);
                    }
                }
                m = m + 1;
            }
            if found {
                Some(id.clone())
            } else if new_tabs.len() > 0 {
                Some(new_tabs[0].id.clone())
            } else {
                None
            }
        },
        None => {
            if new_tabs.len() > 0 {
                Some(new_tabs[0].id.clone())
            } else {
                None
            }
        },
    };
    proof {
        assert(match new_current {
            Some(s) => Some(s@),
            None => None::<Seq<char>>,
        } == repaired_current(old(st)@.session.current_tab_id, kept));
    }
    st.session.tabs = new_tabs;
    st.session.current_tab_id = new_current;
    st.recent_files = new_recents;
    proof {
        assert(st@ == validated_state(old(st)@, pv, mask@));
    }
}

proof fn lemma_kept_tabs_all(paths: Seq<Seq<char>>, mask: Seq<bool>, tabs: Seq<SessionTabV>)
    requires
        forall|i: int| 0 <= i < tabs.len() ==> tab_kept(paths, mask, #[trigger] tabs[i]),
    ensures
        kept_tabs(paths, mask, tabs) == tabs,
    decreases tabs.len(),
{
    if tabs.len() == 0 {
        assert(kept_tabs(paths, mask, tabs) =~= tabs);
    } else {
        assert(tabs.last() == tabs[tabs.len() - 1]);
        assert(forall|i: int|
            0 <= i < tabs.drop_last().len() ==> #[trigger] tabs.drop_last()[i] == tabs[i]);
        lemma_kept_tabs_all(paths, mask, tabs.drop_last());
        assert(kept_tabs(paths, mask, tabs) =~= tabs);
    }
}

proof fn lemma_kept_records_all(paths: Seq<Seq<char>>, mask: Seq<bool>, rs: Seq<LocalFileRecordV>)
    requires
        forall|i: int| 0 <= i < rs.len() ==> path_confirmed(paths, mask, (#[trigger] rs[i]).path),
    ensures
        kept_records(paths, mask, rs) == rs,
    decreases rs.len(),
{
    if rs.len() == 0 {
        assert(kept_records(paths, mask, rs) =~= rs);
    } else {
        assert(rs.last() == rs[rs.len() - 1]);
        assert(forall|i: int|
            0 <= i < rs.drop_last().len() ==> #[trigger] rs.drop_last()[i] == rs[i]);
        lemma_kept_records_all(paths, mask, rs.drop_last());
        assert(kept_records(paths, mask, rs) =~= rs);
    }
}

/// Validation changes nothing when every referenced path was confirmed and
/// the selection is already consistent: a set id that names one of the tabs,
/// or no id only when there is no tab.
pub proof fn lemma_validation_identity(
    st: PersistedStateV,
    paths: Seq<Seq<char>>,
    mask: Seq<bool>,
)
    requires
        forall|i: int|
            0 <= i < st.session.tabs.len() ==> tab_kept(paths, mask, #[trigger] st.session.tabs[i]),
        forall|i: int|
            0 <= i < st.recent_files.len() ==> path_confirmed(
                paths,
                mask,
                (#[trigger] st.recent_files[i]).path,
            ),
        st.session.current_tab_id is Some ==> has_tab_with_id(
            st.session.tabs,
            st.session.current_tab_id->0,
        ),
        st.session.current_tab_id is None ==> st.session.tabs.len() == 0,
    ensures
        validated_state(st, paths, mask) == st,
{
    lemma_kept_tabs_all(paths, mask, st.session.tabs);
    lemma_kept_records_all(paths, mask, st.recent_files);
    assert(validated_state(st, paths, mask).session == st.session);
}

} // verus!
