//! The store's cross-operation guarantees, stated over the model and
//! proved once and for all: round-tripping a fresh row, idempotence of
//! deletion, the exact scope of cascade deletion, the reach of the empty
//! search query, and freshness of `updated_at` under a monotonic clock.

use vstd::prelude::*;
use crate::model::Note;
use crate::model::StoreView;
use crate::model::Subject;
use crate::model::find_note;
use crate::model::has_note;
use crate::model::has_subject;
use crate::model::lemma_matching_notes_elems;
use crate::model::lemma_matching_notes_push;
use crate::model::lemma_notes_excluding_id_push;
use crate::model::lemma_notes_excluding_subject_elems;
use crate::model::lemma_notes_excluding_subject_push;
use crate::model::lemma_subjects_excluding_id_elems;
use crate::model::lemma_subjects_excluding_id_push;
use crate::model::matching_notes;
use crate::model::note_matches;
use crate::model::notes_excluding_id;
use crate::model::notes_excluding_subject;
use crate::model::store_wf;
use crate::model::subjects_excluding_id;
use crate::text::lemma_empty_is_substring;
use crate::text::lex_le;

verus! {

broadcast use vstd::seq_lib::group_filter_ensures;

/// Round-trip: a row just created under a fresh id is exactly the row a
/// lookup of that id then returns.
pub proof fn lemma_create_then_get(notes: Seq<Note>, n: Note)
    requires
        !has_note(notes, n.id@),
    ensures
        find_note(notes.push(n), n.id@) == Some(n),
    decreases notes.len(),
{
    if notes.len() == 0 {
        assert(notes.push(n)[0] == n);
    } else {
        assert(notes[0].id@ != n.id@);
        assert(!has_note(notes.skip(1), n.id@)) by {
            if has_note(notes.skip(1), n.id@) {
                let k = choose|k: int|
                    0 <= k < notes.skip(1).len() && notes.skip(1)[k].id@ == n.id@;
                assert(notes[k + 1].id@ == n.id@);
            }
        }
        lemma_create_then_get(notes.skip(1), n);
        assert(notes.push(n).skip(1) =~= notes.skip(1).push(n));
    }
}

/// Deleting a note id that no row has leaves the table unchanged.
pub proof fn lemma_delete_missing_note(notes: Seq<Note>, id: Seq<char>)
    requires
        !has_note(notes, id),
    ensures
        notes_excluding_id(notes, id) == notes,
    decreases notes.len(),
{
    if notes.len() == 0 {
        reveal(Seq::filter);
        assert(notes_excluding_id(notes, id) =~= notes);
    } else {
        let dl = notes.drop_last();
        let x = notes.last();
        assert(!has_note(dl, id)) by {
            if has_note(dl, id) {
                let k = choose|k: int| 0 <= k < dl.len() && dl[k].id@ == id;
                assert(notes[k].id@ == id);
            }
        }
        lemma_delete_missing_note(dl, id);
        lemma_notes_excluding_id_push(dl, id, x);
        assert(dl.push(x) =~= notes);
        assert(x.id@ != id) by {
            assert(notes[notes.len() - 1] == x);
        }
    }
}

/// Deleting a subject id that no row has leaves both tables unchanged:
/// no subject row carries the id, and by referential integrity no note
/// can point at it either.
pub proof fn lemma_delete_missing_subject(v: StoreView, id: Seq<char>)
    requires
        store_wf(v),
        !has_subject(v.subjects, id),
    ensures
        subjects_excluding_id(v.subjects, id) == v.subjects,
        notes_excluding_subject(v.notes, id) == v.notes,
{
    lemma_subjects_all_kept(v.subjects, id);
    assert(forall|k: int|
        0 <= k < v.notes.len() ==> (#[trigger] v.notes[k].subject_id@) != id) by {
        assert forall|k: int|
            0 <= k < v.notes.len() implies (#[trigger] v.notes[k].subject_id@) != id by {
            assert(has_subject(v.subjects, v.notes[k].subject_id@));
        }
    }
    lemma_notes_all_kept(v.notes, id);
}

proof fn lemma_subjects_all_kept(subjects: Seq<Subject>, id: Seq<char>)
    requires
        forall|k: int| 0 <= k < subjects.len() ==> (#[trigger] subjects[k].id@) != id,
    ensures
        subjects_excluding_id(subjects, id) == subjects,
    decreases subjects.len(),
{
    if subjects.len() == 0 {
        reveal(Seq::filter);
        assert(subjects_excluding_id(subjects, id) =~= subjects);
    } else {
        let dl = subjects.drop_last();
        let x = subjects.last();
        assert(forall|k: int| 0 <= k < dl.len() ==> (#[trigger] dl[k].id@) != id) by {
            assert(forall|k: int| 0 <= k < dl.len() ==> dl[k] == subjects[k]);
        }
        lemma_subjects_all_kept(dl, id);
        lemma_subjects_excluding_id_push(dl, id, x);
        assert(dl.push(x) =~= subjects);
        assert(x.id@ != id) by {
            assert(subjects[subjects.len() - 1] == x);
        }
    }
}

proof fn lemma_notes_all_kept(notes: Seq<Note>, sid: Seq<char>)
    requires
        forall|k: int| 0 <= k < notes.len() ==> (#[trigger] notes[k].subject_id@) != sid,
    ensures
        notes_excluding_subject(notes, sid) == notes,
    decreases notes.len(),
{
    if notes.len() == 0 {
        reveal(Seq::filter);
        assert(notes_excluding_subject(notes, sid) =~= notes);
    } else {
        let dl = notes.drop_last();
        let x = notes.last();
        assert(forall|k: int| 0 <= k < dl.len() ==> (#[trigger] dl[k].subject_id@) != sid) by {
            assert(forall|k: int| 0 <= k < dl.len() ==> dl[k] == notes[k]);
        }
        lemma_notes_all_kept(dl, sid);
        lemma_notes_excluding_subject_push(dl, sid, x);
        assert(dl.push(x) =~= notes);
        assert(x.subject_id@ != sid) by {
            assert(notes[notes.len() - 1] == x);
        }
    }
}

/// Cascade deletion removes exactly the notes of the deleted subject:
/// a note survives if and only if it was present and belongs to another
/// subject.
pub proof fn lemma_cascade_notes(notes: Seq<Note>, sid: Seq<char>)
    ensures
        forall|n: Note|
            #[trigger] notes_excluding_subject(notes, sid).contains(n) <==> (notes.contains(n)
                && n.subject_id@ != sid),
{
    lemma_notes_excluding_subject_elems(notes, sid);
    let f = notes_excluding_subject(notes, sid);
    assert forall|n: Note| #[trigger] f.contains(n) <==> (notes.contains(n) && n.subject_id@
        != sid) by {
        if f.contains(n) {
            let k = choose|k: int| 0 <= k < f.len() && f[k] == n;
            assert(notes.contains(f[k]));
        }
        if notes.contains(n) && n.subject_id@ != sid {
            let k = choose|k: int| 0 <= k < notes.len() && notes[k] == n;
            assert(f.contains(notes[k]));
        }
    }
}

/// Cascade deletion touches no other subject: a subject row survives if
/// and only if it was present and is not the deleted one.
pub proof fn lemma_cascade_subjects(subjects: Seq<Subject>, id: Seq<char>)
    ensures
        forall|s: Subject|
            #[trigger] subjects_excluding_id(subjects, id).contains(s) <==> (subjects.contains(s)
                && s.id@ != id),
{
    lemma_subjects_excluding_id_elems(subjects, id);
    let f = subjects_excluding_id(subjects, id);
    assert forall|s: Subject| #[trigger] f.contains(s) <==> (subjects.contains(s) && s.id@
        != id) by {
        if f.contains(s) {
            let k = choose|k: int| 0 <= k < f.len() && f[k] == s;
            assert(subjects.contains(f[k]));
        }
        if subjects.contains(s) && s.id@ != id {
            let k = choose|k: int| 0 <= k < subjects.len() && subjects[k] == s;
            assert(f.contains(subjects[k]));
        }
    }
}

/// An empty query matches every note, so searching for it considers the
/// whole table.
pub proof fn lemma_empty_query_selects_all(notes: Seq<Note>, q: Seq<char>)
    requires
        q.len() == 0,
    ensures
        matching_notes(notes, q) == notes,
    decreases notes.len(),
{
    if notes.len() == 0 {
        reveal(Seq::filter);
        assert(matching_notes(notes, q) =~= notes);
    } else {
        let dl = notes.drop_last();
        let x = notes.last();
        lemma_empty_query_selects_all(dl, q);
        lemma_matching_notes_push(dl, q, x);
        assert(dl.push(x) =~= notes);
        lemma_empty_is_substring(q, x.title@);
        assert(note_matches(q, x));
    }
}


/// A query that no note contains selects nothing, so searching for it
/// returns the empty listing.
pub proof fn lemma_no_match_selects_none(notes: Seq<Note>, q: Seq<char>)
    requires
        forall|k: int| 0 <= k < notes.len() ==> !note_matches(q, #[trigger] notes[k]),
    ensures
        matching_notes(notes, q).len() == 0,
{
    lemma_matching_notes_elems(notes, q);
    if matching_notes(notes, q).len() > 0 {
        let n = matching_notes(notes, q)[0];
        assert(note_matches(q, n));
        assert(notes.contains(n));
        let k = choose|k: int| 0 <= k < notes.len() && notes[k] == n;
        assert(!note_matches(q, notes[k]));
        assert(false);
    }
}

/// Update freshness: an update stamped with an instant strictly later
/// than the row's previous `updated_at` strictly advances `updated_at`
/// and leaves `created_at` as it was.
pub proof fn lemma_update_freshness(notes: Seq<Note>, i: int, n: Note, now: Seq<char>)
    requires
        0 <= i < notes.len(),
        n.created_at@ == notes[i].created_at@,
        n.updated_at@ == now,
        lex_le(notes[i].updated_at@, now),
        notes[i].updated_at@ != now,
    ensures
        notes.update(i, n)[i].created_at@ == notes[i].created_at@,
        lex_le(notes[i].updated_at@, notes.update(i, n)[i].updated_at@),
        notes.update(i, n)[i].updated_at@ != notes[i].updated_at@,
{
}

} // verus!
