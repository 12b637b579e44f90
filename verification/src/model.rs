//! Row types, the error enumeration, and the mathematical model of the
//! store: both tables as sequences of rows, with the well-formedness
//! conditions the store maintains (unique identifiers, referential
//! integrity) and the orderings and filters the operations promise.

use vstd::prelude::*;
use crate::text::is_substring;
use crate::text::lex_le;

verus! {

/// A named category grouping notes.
#[derive(Debug, PartialEq)]
pub struct Subject {
    pub id: String,
    pub name: String,
    pub color_hex: String,
    pub created_at: String,
    pub updated_at: String,
}

/// A single rich-content document belonging to one subject.
///
/// `content_json` is an opaque serialized payload, stored and returned
/// verbatim; `plain_text` is a caller-supplied flattened projection of it,
/// used only for substring search.
#[derive(Debug, PartialEq)]
pub struct Note {
    pub id: String,
    pub subject_id: String,
    pub title: String,
    pub content_json: String,
    pub plain_text: String,
    pub created_at: String,
    pub updated_at: String,
}

impl Clone for Subject {
    fn clone(&self) -> (r: Self)
        ensures
            r == *self,
    {
        Subject {
            id: self.id.clone(),
            name: self.name.clone(),
            color_hex: self.color_hex.clone(),
            created_at: self.created_at.clone(),
            updated_at: self.updated_at.clone(),
        }
    }
}

impl Clone for Note {
    fn clone(&self) -> (r: Self)
        ensures
            r == *self,
    {
        Note {
            id: self.id.clone(),
            subject_id: self.subject_id.clone(),
            title: self.title.clone(),
            content_json: self.content_json.clone(),
            plain_text: self.plain_text.clone(),
            created_at: self.created_at.clone(),
            updated_at: self.updated_at.clone(),
        }
    }
}

/// The kinds of failure a store operation can report.
///
/// `NotFound` and `IntegrityViolation` arise inside this crate;
/// `StorageUnavailable` and `LockContention` are reserved for the
/// surrounding application's file and lock handling.
#[derive(Clone, Copy, Debug, PartialEq, Eq, Structural)]
pub enum DbError {
    NotFound,
    IntegrityViolation,
    StorageUnavailable,
    LockContention,
}

/// The abstract state of the store: both tables, in insertion order.
pub ghost struct StoreView {
    pub subjects: Seq<Subject>,
    pub notes: Seq<Note>,
}

pub open spec fn has_subject(subjects: Seq<Subject>, id: Seq<char>) -> bool {
    exists|i: int| 0 <= i < subjects.len() && subjects[i].id@ == id
}

pub open spec fn has_note(notes: Seq<Note>, id: Seq<char>) -> bool {
    exists|i: int| 0 <= i < notes.len() && notes[i].id@ == id
}

/// The first subject with the given id, if any.
pub open spec fn find_subject(subjects: Seq<Subject>, id: Seq<char>) -> Option<Subject>
    decreases subjects.len(),
{
    if subjects.len() == 0 {
        None
    } else if subjects[0].id@ == id {
        Some(subjects[0])
    } else {
        find_subject(subjects.skip(1), id)
    }
}

/// The first note with the given id, if any.
pub open spec fn find_note(notes: Seq<Note>, id: Seq<char>) -> Option<Note>
    decreases notes.len(),
{
    if notes.len() == 0 {
        None
    } else if notes[0].id@ == id {
        Some(notes[0])
    } else {
        find_note(notes.skip(1), id)
    }
}

pub open spec fn subject_ids_unique(subjects: Seq<Subject>) -> bool {
    forall|i: int, j: int|
        0 <= i < j < subjects.len() ==> subjects[i].id@ != subjects[j].id@
}

pub open spec fn note_ids_unique(notes: Seq<Note>) -> bool {
    forall|i: int, j: int| 0 <= i < j < notes.len() ==> notes[i].id@ != notes[j].id@
}

/// Referential integrity: every note belongs to an existing subject.
pub open spec fn fk_ok(v: StoreView) -> bool {
    forall|i: int|
        0 <= i < v.notes.len() ==> has_subject(v.subjects, #[trigger] v.notes[i].subject_id@)
}

/// Well-formedness of the store: unique ids in both tables and
/// referential integrity from notes to subjects.
pub open spec fn store_wf(v: StoreView) -> bool {
    &&& subject_ids_unique(v.subjects)
    &&& note_ids_unique(v.notes)
    &&& fk_ok(v)
}

/// A note matches a query when the query occurs in its title or in its
/// plain-text projection. Matching is deliberately exact: the query is
/// taken literally, with no case folding and no wildcard characters.
/// The empty query matches every note.
pub open spec fn note_matches(q: Seq<char>, n: Note) -> bool {
    is_substring(q, n.title@) || is_substring(q, n.plain_text@)
}

pub open spec fn notes_of_subject(notes: Seq<Note>, sid: Seq<char>) -> Seq<Note> {
    notes.filter(|n: Note| n.subject_id@ == sid)
}

pub open spec fn notes_excluding_subject(notes: Seq<Note>, sid: Seq<char>) -> Seq<Note> {
    notes.filter(|n: Note| n.subject_id@ != sid)
}

pub open spec fn notes_excluding_id(notes: Seq<Note>, id: Seq<char>) -> Seq<Note> {
    notes.filter(|n: Note| n.id@ != id)
}

pub open spec fn subjects_excluding_id(subjects: Seq<Subject>, id: Seq<char>) -> Seq<Subject> {
    subjects.filter(|s: Subject| s.id@ != id)
}

pub open spec fn matching_notes(notes: Seq<Note>, q: Seq<char>) -> Seq<Note> {
    notes.filter(|n: Note| note_matches(q, n))
}

/// Ascending by name, the order `get_subjects` returns.
pub open spec fn subjects_sorted_by_name(s: Seq<Subject>) -> bool {
    forall|i: int, j: int| 0 <= i < j < s.len() ==> lex_le(s[i].name@, s[j].name@)
}

/// Descending by `updated_at`, the order every note listing returns.
pub open spec fn notes_sorted_by_updated_desc(s: Seq<Note>) -> bool {
    forall|i: int, j: int| 0 <= i < j < s.len() ==> lex_le(s[j].updated_at@, s[i].updated_at@)
}

/// `find_note` succeeds exactly on present ids.
pub proof fn lemma_find_note_has(notes: Seq<Note>, id: Seq<char>)
    ensures
        find_note(notes, id) is Some <==> has_note(notes, id),
        find_note(notes, id) is Some ==> {
            let n = find_note(notes, id)->Some_0;
            exists|i: int| 0 <= i < notes.len() && notes[i] == n && n.id@ == id
        },
    decreases notes.len(),
{
    if notes.len() > 0 {
        if notes[0].id@ == id {
        } else {
            lemma_find_note_has(notes.skip(1), id);
            if has_note(notes, id) {
                let i = choose|i: int|
                    0 <= i < notes.len() && notes[i].id@ == id;
                assert(notes.skip(1)[i - 1] == notes[i]);
            }
            if find_note(notes.skip(1), id) is Some {
                let n = find_note(notes.skip(1), id)->Some_0;
                let i = choose|i: int|
                    0 <= i < notes.skip(1).len() && notes.skip(1)[i] == n && n.id@ == id;
                assert(notes[i + 1] == notes.skip(1)[i]);
            }
        }
    }
}

/// `find_subject` succeeds exactly on present ids.
pub proof fn lemma_find_subject_has(subjects: Seq<Subject>, id: Seq<char>)
    ensures
        find_subject(subjects, id) is Some <==> has_subject(subjects, id),
        find_subject(subjects, id) is Some ==> {
            let s = find_subject(subjects, id)->Some_0;
            exists|i: int| 0 <= i < subjects.len() && subjects[i] == s && s.id@ == id
        },
    decreases subjects.len(),
{
    if subjects.len() > 0 {
        if subjects[0].id@ == id {
        } else {
            lemma_find_subject_has(subjects.skip(1), id);
            if has_subject(subjects, id) {
                let i = choose|i: int|
                    0 <= i < subjects.len() && subjects[i].id@ == id;
                assert(subjects.skip(1)[i - 1] == subjects[i]);
            }
            if find_subject(subjects.skip(1), id) is Some {
                let s = find_subject(subjects.skip(1), id)->Some_0;
                let i = choose|i: int|
                    0 <= i < subjects.skip(1).len() && subjects.skip(1)[i] == s && s.id@ == id;
                assert(subjects[i + 1] == subjects.skip(1)[i]);
            }
        }
    }
}

/// One filtering step: extending the table by one row extends the
/// filtered view exactly when the row passes.
pub proof fn lemma_notes_of_subject_push(notes: Seq<Note>, sid: Seq<char>, x: Note)
    ensures
        notes_of_subject(notes.push(x), sid) == if x.subject_id@ == sid {
            notes_of_subject(notes, sid).push(x)
        } else {
            notes_of_subject(notes, sid)
        },
{
    reveal(Seq::filter);
    assert(notes.push(x).drop_last() =~= notes);
    assert(notes.push(x).last() == x);
}

pub proof fn lemma_notes_excluding_subject_push(notes: Seq<Note>, sid: Seq<char>, x: Note)
    ensures
        notes_excluding_subject(notes.push(x), sid) == if x.subject_id@ != sid {
            notes_excluding_subject(notes, sid).push(x)
        } else {
            notes_excluding_subject(notes, sid)
        },
{
    reveal(Seq::filter);
    assert(notes.push(x).drop_last() =~= notes);
    assert(notes.push(x).last() == x);
}

pub proof fn lemma_notes_excluding_id_push(notes: Seq<Note>, id: Seq<char>, x: Note)
    ensures
        notes_excluding_id(notes.push(x), id) == if x.id@ != id {
            notes_excluding_id(notes, id).push(x)
        } else {
            notes_excluding_id(notes, id)
        },
{
    reveal(Seq::filter);
    assert(notes.push(x).drop_last() =~= notes);
    assert(notes.push(x).last() == x);
}

pub proof fn lemma_subjects_excluding_id_push(subjects: Seq<Subject>, id: Seq<char>, x: Subject)
    ensures
        subjects_excluding_id(subjects.push(x), id) == if x.id@ != id {
            subjects_excluding_id(subjects, id).push(x)
        } else {
            subjects_excluding_id(subjects, id)
        },
{
    reveal(Seq::filter);
    assert(subjects.push(x).drop_last() =~= subjects);
    assert(subjects.push(x).last() == x);
}

pub proof fn lemma_matching_notes_push(notes: Seq<Note>, q: Seq<char>, x: Note)
    ensures
        matching_notes(notes.push(x), q) == if note_matches(q, x) {
            matching_notes(notes, q).push(x)
        } else {
            matching_notes(notes, q)
        },
{
    reveal(Seq::filter);
    assert(notes.push(x).drop_last() =~= notes);
    assert(notes.push(x).last() == x);
}

pub proof fn lemma_notes_excluding_subject_ids(notes: Seq<Note>, sid: Seq<char>)
    requires
        note_ids_unique(notes),
    ensures
        note_ids_unique(notes_excluding_subject(notes, sid)),
        forall|id: Seq<char>|
            has_note(notes_excluding_subject(notes, sid), id) ==> has_note(notes, id),
    decreases notes.len(),
{
    if notes.len() == 0 {
        reveal(Seq::filter);
    } else {
        let dl = notes.drop_last();
        let x = notes.last();
        assert(note_ids_unique(dl)) by {
            assert(forall|i: int| 0 <= i < dl.len() ==> dl[i] == notes[i]);
        }
        lemma_notes_excluding_subject_ids(dl, sid);
        lemma_notes_excluding_subject_push(dl, sid, x);
        assert(dl.push(x) =~= notes);
        let f_dl = notes_excluding_subject(dl, sid);
        let f = notes_excluding_subject(notes, sid);
        if x.subject_id@ != sid {
            assert(f == f_dl.push(x));
            assert forall|i: int, j: int| 0 <= i < j < f.len() implies f[i].id@ != f[j].id@ by {
                if j == f.len() - 1 {
                    if f[i].id@ == x.id@ {
                        assert(has_note(f_dl, x.id@)) by {
                            assert(f_dl[i].id@ == x.id@);
                        }
                        assert(has_note(dl, x.id@));
                        let k = choose|k: int| 0 <= k < dl.len() && dl[k].id@ == x.id@;
                        assert(notes[k].id@ == notes[notes.len() - 1].id@);
                        assert(false);
                    }
                } else {
                    assert(f[i] == f_dl[i] && f[j] == f_dl[j]);
                }
            }
            assert forall|id2: Seq<char>| has_note(f, id2) implies has_note(notes, id2) by {
                let k = choose|k: int| 0 <= k < f.len() && f[k].id@ == id2;
                if k < f.len() - 1 {
                    assert(has_note(f_dl, id2)) by {
                        assert(f_dl[k].id@ == id2);
                    }
                    assert(has_note(dl, id2));
                    let k2 = choose|k2: int| 0 <= k2 < dl.len() && dl[k2].id@ == id2;
                    assert(notes[k2].id@ == id2);
                } else {
                    assert(notes[notes.len() - 1].id@ == id2);
                }
            }
        } else {
            assert(f == f_dl);
            assert forall|id2: Seq<char>| has_note(f, id2) implies has_note(notes, id2) by {
                assert(has_note(f_dl, id2));
                assert(has_note(dl, id2));
                let k2 = choose|k2: int| 0 <= k2 < dl.len() && dl[k2].id@ == id2;
                assert(notes[k2].id@ == id2);
            }
        }
    }
}

pub proof fn lemma_notes_excluding_id_ids(notes: Seq<Note>, id: Seq<char>)
    requires
        note_ids_unique(notes),
    ensures
        note_ids_unique(notes_excluding_id(notes, id)),
        forall|id2: Seq<char>|
            has_note(notes_excluding_id(notes, id), id2) ==> has_note(notes, id2),
    decreases notes.len(),
{
    if notes.len() == 0 {
        reveal(Seq::filter);
    } else {
        let dl = notes.drop_last();
        let x = notes.last();
        assert(note_ids_unique(dl)) by {
            assert(forall|i: int| 0 <= i < dl.len() ==> dl[i] == notes[i]);
        }
        lemma_notes_excluding_id_ids(dl, id);
        lemma_notes_excluding_id_push(dl, id, x);
        assert(dl.push(x) =~= notes);
        let f_dl = notes_excluding_id(dl, id);
        let f = notes_excluding_id(notes, id);
        if x.id@ != id {
            assert(f == f_dl.push(x));
            assert forall|i: int, j: int| 0 <= i < j < f.len() implies f[i].id@ != f[j].id@ by {
                if j == f.len() - 1 {
                    if f[i].id@ == x.id@ {
                        assert(has_note(f_dl, x.id@)) by {
                            assert(f_dl[i].id@ == x.id@);
                        }
                        assert(has_note(dl, x.id@));
                        let k = choose|k: int| 0 <= k < dl.len() && dl[k].id@ == x.id@;
                        assert(notes[k].id@ == notes[notes.len() - 1].id@);
                        assert(false);
                    }
                } else {
                    assert(f[i] == f_dl[i] && f[j] == f_dl[j]);
                }
            }
            assert forall|id2: Seq<char>| has_note(f, id2) implies has_note(notes, id2) by {
                let k = choose|k: int| 0 <= k < f.len() && f[k].id@ == id2;
                if k < f.len() - 1 {
                    assert(has_note(f_dl, id2)) by {
                        assert(f_dl[k].id@ == id2);
                    }
                    assert(has_note(dl, id2));
                    let k2 = choose|k2: int| 0 <= k2 < dl.len() && dl[k2].id@ == id2;
                    assert(notes[k2].id@ == id2);
                } else {
                    assert(notes[notes.len() - 1].id@ == id2);
                }
            }
        } else {
            assert(f == f_dl);
            assert forall|id2: Seq<char>| has_note(f, id2) implies has_note(notes, id2) by {
                assert(has_note(f_dl, id2));
                assert(has_note(dl, id2));
                let k2 = choose|k2: int| 0 <= k2 < dl.len() && dl[k2].id@ == id2;
                assert(notes[k2].id@ == id2);
            }
        }
    }
}

pub proof fn lemma_subjects_excluding_id_ids(subjects: Seq<Subject>, id: Seq<char>)
    requires
        subject_ids_unique(subjects),
    ensures
        subject_ids_unique(subjects_excluding_id(subjects, id)),
        forall|id2: Seq<char>|
            has_subject(subjects_excluding_id(subjects, id), id2) ==> has_subject(subjects, id2),
    decreases subjects.len(),
{
    if subjects.len() == 0 {
        reveal(Seq::filter);
    } else {
        let dl = subjects.drop_last();
        let x = subjects.last();
        assert(subject_ids_unique(dl)) by {
            assert(forall|i: int| 0 <= i < dl.len() ==> dl[i] == subjects[i]);
        }
        lemma_subjects_excluding_id_ids(dl, id);
        lemma_subjects_excluding_id_push(dl, id, x);
        assert(dl.push(x) =~= subjects);
        let f_dl = subjects_excluding_id(dl, id);
        let f = subjects_excluding_id(subjects, id);
        if x.id@ != id {
            assert(f == f_dl.push(x));
            assert forall|i: int, j: int| 0 <= i < j < f.len() implies f[i].id@ != f[j].id@ by {
                if j == f.len() - 1 {
                    if f[i].id@ == x.id@ {
                        assert(has_subject(f_dl, x.id@)) by {
                            assert(f_dl[i].id@ == x.id@);
                        }
                        assert(has_subject(dl, x.id@));
                        let k = choose|k: int| 0 <= k < dl.len() && dl[k].id@ == x.id@;
                        assert(subjects[k].id@ == subjects[subjects.len() - 1].id@);
                        assert(false);
                    }
                } else {
                    assert(f[i] == f_dl[i] && f[j] == f_dl[j]);
                }
            }
            assert forall|id2: Seq<char>| has_subject(f, id2) implies has_subject(subjects, id2) by {
                let k = choose|k: int| 0 <= k < f.len() && f[k].id@ == id2;
                if k < f.len() - 1 {
                    assert(has_subject(f_dl, id2)) by {
                        assert(f_dl[k].id@ == id2);
                    }
                    assert(has_subject(dl, id2));
                    let k2 = choose|k2: int| 0 <= k2 < dl.len() && dl[k2].id@ == id2;
                    assert(subjects[k2].id@ == id2);
                } else {
                    assert(subjects[subjects.len() - 1].id@ == id2);
                }
            }
        } else {
            assert(f == f_dl);
            assert forall|id2: Seq<char>| has_subject(f, id2) implies has_subject(subjects, id2) by {
                assert(has_subject(f_dl, id2));
                assert(has_subject(dl, id2));
                let k2 = choose|k2: int| 0 <= k2 < dl.len() && dl[k2].id@ == id2;
                assert(subjects[k2].id@ == id2);
            }
        }
    }
}

/// The filtered sequence holds exactly the stored rows that pass.
pub proof fn lemma_notes_excluding_subject_elems(rows: Seq<Note>, key: Seq<char>)
    ensures
        forall|k: int|
            0 <= k < notes_excluding_subject(rows, key).len() ==> rows.contains(#[trigger] notes_excluding_subject(rows, key)[k]),
        forall|k: int|
            0 <= k < rows.len() && (#[trigger] rows[k]).subject_id@ != key ==> notes_excluding_subject(
                rows,
                key,
            ).contains(rows[k]),
    decreases rows.len(),
{
    if rows.len() == 0 {
        reveal(Seq::filter);
    } else {
        let dl = rows.drop_last();
        let x = rows.last();
        lemma_notes_excluding_subject_elems(dl, key);
        lemma_notes_excluding_subject_push(dl, key, x);
        assert(dl.push(x) =~= rows);
        let f_dl = notes_excluding_subject(dl, key);
        let f = notes_excluding_subject(rows, key);
        assert forall|k: int| 0 <= k < f.len() implies rows.contains(f[k]) by {
            if x.subject_id@ != key && k == f.len() - 1 {
                assert(f[k] == x);
                assert(rows[rows.len() - 1] == x);
            } else {
                assert(f[k] == f_dl[k]);
                assert(dl.contains(f_dl[k]));
                let k2 = choose|k2: int| 0 <= k2 < dl.len() && dl[k2] == f_dl[k];
                assert(rows[k2] == f[k]);
            }
        }
        assert forall|k: int| 0 <= k < rows.len() && rows[k].subject_id@ != key implies f.contains(
            rows[k],
        ) by {
            if k == rows.len() - 1 {
                assert(f == f_dl.push(x));
                assert(f[f.len() - 1] == rows[k]);
            } else {
                assert(dl[k] == rows[k]);
                assert(f_dl.contains(dl[k]));
                let k2 = choose|k2: int| 0 <= k2 < f_dl.len() && f_dl[k2] == dl[k];
                assert(f[k2] == rows[k]);
            }
        }
    }
}

/// The filtered sequence holds exactly the stored rows that pass.
pub proof fn lemma_notes_excluding_id_elems(rows: Seq<Note>, key: Seq<char>)
    ensures
        forall|k: int|
            0 <= k < notes_excluding_id(rows, key).len() ==> rows.contains(#[trigger] notes_excluding_id(rows, key)[k]),
        forall|k: int|
            0 <= k < rows.len() && (#[trigger] rows[k]).id@ != key ==> notes_excluding_id(
                rows,
                key,
            ).contains(rows[k]),
    decreases rows.len(),
{
    if rows.len() == 0 {
        reveal(Seq::filter);
    } else {
        let dl = rows.drop_last();
        let x = rows.last();
        lemma_notes_excluding_id_elems(dl, key);
        lemma_notes_excluding_id_push(dl, key, x);
        assert(dl.push(x) =~= rows);
        let f_dl = notes_excluding_id(dl, key);
        let f = notes_excluding_id(rows, key);
        assert forall|k: int| 0 <= k < f.len() implies rows.contains(f[k]) by {
            if x.id@ != key && k == f.len() - 1 {
                assert(f[k] == x);
                assert(rows[rows.len() - 1] == x);
            } else {
                assert(f[k] == f_dl[k]);
                assert(dl.contains(f_dl[k]));
                let k2 = choose|k2: int| 0 <= k2 < dl.len() && dl[k2] == f_dl[k];
                assert(rows[k2] == f[k]);
            }
        }
        assert forall|k: int| 0 <= k < rows.len() && rows[k].id@ != key implies f.contains(
            rows[k],
        ) by {
            if k == rows.len() - 1 {
                assert(f == f_dl.push(x));
                assert(f[f.len() - 1] == rows[k]);
            } else {
                assert(dl[k] == rows[k]);
                assert(f_dl.contains(dl[k]));
                let k2 = choose|k2: int| 0 <= k2 < f_dl.len() && f_dl[k2] == dl[k];
                assert(f[k2] == rows[k]);
            }
        }
    }
}

/// The filtered sequence holds exactly the stored rows that pass.
pub proof fn lemma_subjects_excluding_id_elems(rows: Seq<Subject>, key: Seq<char>)
    ensures
        forall|k: int|
            0 <= k < subjects_excluding_id(rows, key).len() ==> rows.contains(#[trigger] subjects_excluding_id(rows, key)[k]),
        forall|k: int|
            0 <= k < rows.len() && (#[trigger] rows[k]).id@ != key ==> subjects_excluding_id(
                rows,
                key,
            ).contains(rows[k]),
    decreases rows.len(),
{
    if rows.len() == 0 {
        reveal(Seq::filter);
    } else {
        let dl = rows.drop_last();
        let x = rows.last();
        lemma_subjects_excluding_id_elems(dl, key);
        lemma_subjects_excluding_id_push(dl, key, x);
        assert(dl.push(x) =~= rows);
        let f_dl = subjects_excluding_id(dl, key);
        let f = subjects_excluding_id(rows, key);
        assert forall|k: int| 0 <= k < f.len() implies rows.contains(f[k]) by {
            if x.id@ != key && k == f.len() - 1 {
                assert(f[k] == x);
                assert(rows[rows.len() - 1] == x);
            } else {
                assert(f[k] == f_dl[k]);
                assert(dl.contains(f_dl[k]));
                let k2 = choose|k2: int| 0 <= k2 < dl.len() && dl[k2] == f_dl[k];
                assert(rows[k2] == f[k]);
            }
        }
        assert forall|k: int| 0 <= k < rows.len() && rows[k].id@ != key implies f.contains(
            rows[k],
        ) by {
            if k == rows.len() - 1 {
                assert(f == f_dl.push(x));
                assert(f[f.len() - 1] == rows[k]);
            } else {
                assert(dl[k] == rows[k]);
                assert(f_dl.contains(dl[k]));
                let k2 = choose|k2: int| 0 <= k2 < f_dl.len() && f_dl[k2] == dl[k];
                assert(f[k2] == rows[k]);
            }
        }
    }
}

/// The search filter holds exactly the stored rows that match.
pub proof fn lemma_matching_notes_elems(notes: Seq<Note>, q: Seq<char>)
    ensures
        forall|k: int|
            0 <= k < matching_notes(notes, q).len() ==> notes.contains(
                #[trigger] matching_notes(notes, q)[k],
            ),
        forall|k: int|
            0 <= k < matching_notes(notes, q).len() ==> note_matches(
                q,
                #[trigger] matching_notes(notes, q)[k],
            ),
        forall|k: int|
            0 <= k < notes.len() && note_matches(q, #[trigger] notes[k]) ==> matching_notes(
                notes,
                q,
            ).contains(notes[k]),
    decreases notes.len(),
{
    if notes.len() == 0 {
        reveal(Seq::filter);
    } else {
        let dl = notes.drop_last();
        let x = notes.last();
        lemma_matching_notes_elems(dl, q);
        lemma_matching_notes_push(dl, q, x);
        assert(dl.push(x) =~= notes);
        let f_dl = matching_notes(dl, q);
        let f = matching_notes(notes, q);
        assert forall|k: int| 0 <= k < f.len() implies notes.contains(f[k]) && note_matches(
            q,
            f[k],
        ) by {
            if note_matches(q, x) && k == f.len() - 1 {
                assert(f[k] == x);
                assert(notes[notes.len() - 1] == x);
            } else {
                assert(f[k] == f_dl[k]);
                assert(dl.contains(f_dl[k]));
                let k2 = choose|k2: int| 0 <= k2 < dl.len() && dl[k2] == f_dl[k];
                assert(notes[k2] == f[k]);
            }
        }
        assert forall|k: int| 0 <= k < notes.len() && note_matches(q, notes[k]) implies f.contains(
            notes[k],
        ) by {
            if k == notes.len() - 1 {
                assert(f == f_dl.push(x));
                assert(f[f.len() - 1] == notes[k]);
            } else {
                assert(dl[k] == notes[k]);
                assert(f_dl.contains(dl[k]));
                let k2 = choose|k2: int| 0 <= k2 < f_dl.len() && f_dl[k2] == dl[k];
                assert(f[k2] == notes[k]);
            }
        }
    }
}
} // verus!
