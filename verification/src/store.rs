//! The store itself: one `Database` value holding both tables, with the
//! CRUD and search operations and their contracts. Identifier generation
//! and timestamping are the only outside calls; everything the operations
//! promise about table contents is proved.

use vstd::prelude::*;
use crate::model::DbError;
use crate::model::Note;
use crate::model::StoreView;
use crate::model::Subject;
use crate::model::find_note;
use crate::model::fk_ok;
use crate::model::find_subject;
use crate::model::has_note;
use crate::model::has_subject;
use crate::model::lemma_find_note_has;
use crate::model::lemma_find_subject_has;
use crate::model::lemma_matching_notes_elems;
use crate::model::lemma_matching_notes_push;
use crate::model::lemma_notes_excluding_id_elems;
use crate::model::lemma_notes_excluding_id_ids;
use crate::model::lemma_notes_excluding_id_push;
use crate::model::lemma_notes_excluding_subject_elems;
use crate::model::lemma_notes_excluding_subject_ids;
use crate::model::lemma_notes_excluding_subject_push;
use crate::model::lemma_notes_of_subject_push;
use crate::model::lemma_subjects_excluding_id_elems;
use crate::model::lemma_subjects_excluding_id_ids;
use crate::model::lemma_subjects_excluding_id_push;
use crate::model::matching_notes;
use crate::model::note_ids_unique;
use crate::model::note_matches;
use crate::model::notes_excluding_id;
use crate::model::notes_excluding_subject;
use crate::model::notes_of_subject;
use crate::model::notes_sorted_by_updated_desc;
use crate::model::store_wf;
use crate::model::subject_ids_unique;
use crate::model::subjects_excluding_id;
use crate::model::subjects_sorted_by_name;
use crate::sort::sort_notes_by_updated_desc;
use crate::sort::sort_subjects_by_name;
use crate::text::str_contains;
use crate::text::str_eq;

verus! {

broadcast use vstd::seq_lib::group_filter_ensures, vstd::seq_lib::group_to_multiset_ensures;

/// Relies on `uuid::Uuid::new_v4` and its `Display` impl: a freshly drawn
/// random 128-bit identifier in hyphenated hexadecimal text form, which
/// is always 36 characters. The value is random, so nothing more is
/// promised of it.
#[verifier::external_body]
fn fresh_id() -> (r: String)
    ensures
        r@.len() == 36,
{
    uuid::Uuid::new_v4().to_string()
}

/// Relies on `chrono::Utc::now` and `DateTime::to_rfc3339`: the current
/// instant as RFC 3339 text in UTC. The result depends on the clock, so
/// nothing is promised of it.
#[verifier::external_body]
fn now_rfc3339() -> String {
    chrono::Utc::now().to_rfc3339()
}

fn clone_subjects(v: &Vec<Subject>) -> (r: Vec<Subject>)
    ensures
        r@ == v@,
{
    let mut out: Vec<Subject> = Vec::new();
    let mut i: usize = 0;
    while i < v.len()
        invariant
            i <= v@.len(),
            out@ == v@.take(i as int),
        decreases v@.len() - i,
    {
        out.push(v[i].clone());
        proof {
            assert(v@.take(i + 1 as int) =~= v@.take(i as int).push(v@[i as int]));
        }
        i += 1;
    }
    proof {
        assert(v@.take(v@.len() as int) =~= v@);
    }
    out
}

fn clone_notes(v: &Vec<Note>) -> (r: Vec<Note>)
    ensures
        r@ == v@,
{
    let mut out: Vec<Note> = Vec::new();
    let mut i: usize = 0;
    while i < v.len()
        invariant
            i <= v@.len(),
            out@ == v@.take(i as int),
        decreases v@.len() - i,
    {
        out.push(v[i].clone());
        proof {
            assert(v@.take(i + 1 as int) =~= v@.take(i as int).push(v@[i as int]));
        }
        i += 1;
    }
    proof {
        assert(v@.take(v@.len() as int) =~= v@);
    }
    out
}

fn contains_subject_id(subjects: &Vec<Subject>, id: &str) -> (r: bool)
    ensures
        r == has_subject(subjects@, id@),
{
    let mut i: usize = 0;
    while i < subjects.len()
        invariant
            i <= subjects@.len(),
            forall|j: int| 0 <= j < i ==> #[trigger] subjects@[j].id@ != id@,
        decreases subjects@.len() - i,
    {
        if str_eq(subjects[i].id.as_str(), id) {
            return true;
        }
        i += 1;
    }
    false
}

fn contains_note_id(notes: &Vec<Note>, id: &str) -> (r: bool)
    ensures
        r == has_note(notes@, id@),
{
    let mut i: usize = 0;
    while i < notes.len()
        invariant
            i <= notes@.len(),
            forall|j: int| 0 <= j < i ==> #[trigger] notes@[j].id@ != id@,
        decreases notes@.len() - i,
    {
        if str_eq(notes[i].id.as_str(), id) {
            return true;
        }
        i += 1;
    }
    false
}

fn locate_note(notes: &Vec<Note>, id: &str) -> (r: Option<usize>)
    ensures
        match r {
            Some(i) => i < notes@.len() && notes@[i as int].id@ == id@ && find_note(
                notes@,
                id@,
            ) == Some(notes@[i as int]),
            None => find_note(notes@, id@) is None && !has_note(notes@, id@),
        },
{
    let mut i: usize = 0;
    proof {
        assert(notes@.skip(0) =~= notes@);
    }
    while i < notes.len()
        invariant
            i <= notes@.len(),
            find_note(notes@, id@) == find_note(notes@.skip(i as int), id@),
        decreases notes@.len() - i,
    {
        proof {
            assert(notes@.skip(i as int)[0] == notes@[i as int]);
            assert(notes@.skip(i as int).skip(1) =~= notes@.skip(i + 1 as int));
        }
        if str_eq(notes[i].id.as_str(), id) {
            return Some(i);
        }
        i += 1;
    }
    proof {
        assert(notes@.skip(notes@.len() as int).len() == 0);
        lemma_find_note_has(notes@, id@);
    }
    None
}

fn locate_subject(subjects: &Vec<Subject>, id: &str) -> (r: Option<usize>)
    ensures
        match r {
            Some(i) => i < subjects@.len() && subjects@[i as int].id@ == id@ && find_subject(
                subjects@,
                id@,
            ) == Some(subjects@[i as int]),
            None => find_subject(subjects@, id@) is None && !has_subject(subjects@, id@),
        },
{
    let mut i: usize = 0;
    proof {
        assert(subjects@.skip(0) =~= subjects@);
    }
    while i < subjects.len()
        invariant
            i <= subjects@.len(),
            find_subject(subjects@, id@) == find_subject(subjects@.skip(i as int), id@),
        decreases subjects@.len() - i,
    {
        proof {
            assert(subjects@.skip(i as int)[0] == subjects@[i as int]);
            assert(subjects@.skip(i as int).skip(1) =~= subjects@.skip(i + 1 as int));
        }
        if str_eq(subjects[i].id.as_str(), id) {
            return Some(i);
        }
        i += 1;
    }
    proof {
        assert(subjects@.skip(subjects@.len() as int).len() == 0);
        lemma_find_subject_has(subjects@, id@);
    }
    None
}

fn select_notes_of_subject(notes: &Vec<Note>, sid: &str) -> (r: Vec<Note>)
    ensures
        r@ == notes_of_subject(notes@, sid@),
{
    let mut out: Vec<Note> = Vec::new();
    let mut i: usize = 0;
    proof {
        assert(notes@.take(0) =~= Seq::<Note>::empty());
        reveal(Seq::filter);
    }
    while i < notes.len()
        invariant
            i <= notes@.len(),
            out@ == notes_of_subject(notes@.take(i as int), sid@),
        decreases notes@.len() - i,
    {
        proof {
            assert(notes@.take(i + 1 as int) =~= notes@.take(i as int).push(notes@[i as int]));
            lemma_notes_of_subject_push(notes@.take(i as int), sid@, notes@[i as int]);
        }
        if str_eq(notes[i].subject_id.as_str(), sid) {
            out.push(notes[i].clone());
        }
        i += 1;
    }
    proof {
        assert(notes@.take(notes@.len() as int) =~= notes@);
    }
    out
}

fn select_matching_notes(notes: &Vec<Note>, q: &str) -> (r: Vec<Note>)
    ensures
        r@ == matching_notes(notes@, q@),
{
    let mut out: Vec<Note> = Vec::new();
    let mut i: usize = 0;
    proof {
        assert(notes@.take(0) =~= Seq::<Note>::empty());
        reveal(Seq::filter);
    }
    while i < notes.len()
        invariant
            i <= notes@.len(),
            out@ == matching_notes(notes@.take(i as int), q@),
        decreases notes@.len() - i,
    {
        proof {
            assert(notes@.take(i + 1 as int) =~= notes@.take(i as int).push(notes@[i as int]));
            lemma_matching_notes_push(notes@.take(i as int), q@, notes@[i as int]);
        }
        let in_title = str_contains(notes[i].title.as_str(), q);
        let in_text = str_contains(notes[i].plain_text.as_str(), q);
        if in_title || in_text {
            out.push(notes[i].clone());
        }
        i += 1;
    }
    proof {
        assert(notes@.take(notes@.len() as int) =~= notes@);
    }
    out
}


fn select_notes_excluding_subject(notes: &Vec<Note>, sid: &str) -> (r: Vec<Note>)
    ensures
        r@ == notes_excluding_subject(notes@, sid@),
{
    let mut out: Vec<Note> = Vec::new();
    let mut i: usize = 0;
    proof {
        assert(notes@.take(0) =~= Seq::<Note>::empty());
        reveal(Seq::filter);
    }
    while i < notes.len()
        invariant
            i <= notes@.len(),
            out@ == notes_excluding_subject(notes@.take(i as int), sid@),
        decreases notes@.len() - i,
    {
        proof {
            assert(notes@.take(i + 1 as int) =~= notes@.take(i as int).push(notes@[i as int]));
            lemma_notes_excluding_subject_push(notes@.take(i as int), sid@, notes@[i as int]);
        }
        if !str_eq(notes[i].subject_id.as_str(), sid) {
            out.push(notes[i].clone());
        }
        i += 1;
    }
    proof {
        assert(notes@.take(notes@.len() as int) =~= notes@);
    }
    out
}

fn select_notes_excluding_id(notes: &Vec<Note>, id: &str) -> (r: Vec<Note>)
    ensures
        r@ == notes_excluding_id(notes@, id@),
{
    let mut out: Vec<Note> = Vec::new();
    let mut i: usize = 0;
    proof {
        assert(notes@.take(0) =~= Seq::<Note>::empty());
        reveal(Seq::filter);
    }
    while i < notes.len()
        invariant
            i <= notes@.len(),
            out@ == notes_excluding_id(notes@.take(i as int), id@),
        decreases notes@.len() - i,
    {
        proof {
            assert(notes@.take(i + 1 as int) =~= notes@.take(i as int).push(notes@[i as int]));
            lemma_notes_excluding_id_push(notes@.take(i as int), id@, notes@[i as int]);
        }
        if !str_eq(notes[i].id.as_str(), id) {
            out.push(notes[i].clone());
        }
        i += 1;
    }
    proof {
        assert(notes@.take(notes@.len() as int) =~= notes@);
    }
    out
}

fn select_subjects_excluding_id(subjects: &Vec<Subject>, id: &str) -> (r: Vec<Subject>)
    ensures
        r@ == subjects_excluding_id(subjects@, id@),
{
    let mut out: Vec<Subject> = Vec::new();
    let mut i: usize = 0;
    proof {
        assert(subjects@.take(0) =~= Seq::<Subject>::empty());
        reveal(Seq::filter);
    }
    while i < subjects.len()
        invariant
            i <= subjects@.len(),
            out@ == subjects_excluding_id(subjects@.take(i as int), id@),
        decreases subjects@.len() - i,
    {
        proof {
            assert(subjects@.take(i + 1 as int) =~= subjects@.take(i as int).push(
                subjects@[i as int],
            ));
            lemma_subjects_excluding_id_push(subjects@.take(i as int), id@, subjects@[i as int]);
        }
        if !str_eq(subjects[i].id.as_str(), id) {
            out.push(subjects[i].clone());
        }
        i += 1;
    }
    proof {
        assert(subjects@.take(subjects@.len() as int) =~= subjects@);
    }
    out
}

fn subject_ids_distinct(subjects: &Vec<Subject>) -> (r: bool)
    ensures
        r == subject_ids_unique(subjects@),
{
    let mut i: usize = 0;
    while i < subjects.len()
        invariant
            i <= subjects@.len(),
            forall|a: int, b: int|
                0 <= a < b < subjects@.len() && a < i ==> subjects@[a].id@ != subjects@[b].id@,
        decreases subjects@.len() - i,
    {
        let mut j: usize = i + 1;
        while j < subjects.len()
            invariant
                i < j <= subjects@.len(),
                i < subjects@.len(),
                forall|b: int| i < b < j ==> subjects@[i as int].id@ != #[trigger] subjects@[b].id@,
            decreases subjects@.len() - j,
        {
            if str_eq(subjects[i].id.as_str(), subjects[j].id.as_str()) {
                return false;
            }
            j += 1;
        }
        i += 1;
    }
    true
}

fn note_ids_distinct(notes: &Vec<Note>) -> (r: bool)
    ensures
        r == note_ids_unique(notes@),
{
    let mut i: usize = 0;
    while i < notes.len()
        invariant
            i <= notes@.len(),
            forall|a: int, b: int|
                0 <= a < b < notes@.len() && a < i ==> notes@[a].id@ != notes@[b].id@,
        decreases notes@.len() - i,
    {
        let mut j: usize = i + 1;
        while j < notes.len()
            invariant
                i < j <= notes@.len(),
                i < notes@.len(),
                forall|b: int| i < b < j ==> notes@[i as int].id@ != #[trigger] notes@[b].id@,
            decreases notes@.len() - j,
        {
            if str_eq(notes[i].id.as_str(), notes[j].id.as_str()) {
                return false;
            }
            j += 1;
        }
        i += 1;
    }
    true
}

fn notes_reference_subjects(notes: &Vec<Note>, subjects: &Vec<Subject>) -> (r: bool)
    ensures
        r == fk_ok(StoreView { subjects: subjects@, notes: notes@ }),
{
    let mut i: usize = 0;
    while i < notes.len()
        invariant
            i <= notes@.len(),
            forall|j: int|
                0 <= j < i ==> has_subject(subjects@, #[trigger] notes@[j].subject_id@),
        decreases notes@.len() - i,
    {
        if !contains_subject_id(subjects, notes[i].subject_id.as_str()) {
            proof {
                let v = StoreView { subjects: subjects@, notes: notes@ };
                assert(!has_subject(v.subjects, v.notes[i as int].subject_id@));
            }
            return false;
        }
        i += 1;
    }
    true
}

/// The store: both tables of the single-file design, held in insertion
/// order. One value of this type owns all durable state of the
/// application; the surrounding shell mirrors it to disk.
pub struct Database {
    subjects: Vec<Subject>,
    notes: Vec<Note>,
}

impl View for Database {
    type V = StoreView;

    closed spec fn view(&self) -> StoreView {
        StoreView { subjects: self.subjects@, notes: self.notes@ }
    }
}

impl Database {
    /// Unique ids in both tables and referential integrity.
    pub open spec fn wf(&self) -> bool {
        store_wf(self@)
    }

    /// An empty store, the state after the initial schema migration on a
    /// fresh file.
    pub fn new() -> (db: Database)
        ensures
            db.wf(),
            db@.subjects == Seq::<Subject>::empty(),
            db@.notes == Seq::<Note>::empty(),
    {
        Database { subjects: Vec::new(), notes: Vec::new() }
    }

    /// All subjects, ascending by name.
    pub fn get_subjects(&self) -> (r: Vec<Subject>)
        ensures
            subjects_sorted_by_name(r@),
            r@.to_multiset() == self@.subjects.to_multiset(),
            r@.len() == self@.subjects.len(),
    {
        let copy = clone_subjects(&self.subjects);
        sort_subjects_by_name(copy)
    }

    /// All notes of one subject, most recently updated first.
    pub fn get_notes(&self, subject_id: &str) -> (r: Vec<Note>)
        ensures
            notes_sorted_by_updated_desc(r@),
            r@.to_multiset() == notes_of_subject(self@.notes, subject_id@).to_multiset(),
            r@.len() == notes_of_subject(self@.notes, subject_id@).len(),
    {
        let picked = select_notes_of_subject(&self.notes, subject_id);
        sort_notes_by_updated_desc(picked)
    }

    /// Every note in the store, most recently updated first.
    pub fn get_all_notes(&self) -> (r: Vec<Note>)
        ensures
            notes_sorted_by_updated_desc(r@),
            r@.to_multiset() == self@.notes.to_multiset(),
            r@.len() == self@.notes.len(),
    {
        let copy = clone_notes(&self.notes);
        sort_notes_by_updated_desc(copy)
    }

    /// One note by id; `NotFound` exactly when no row has that id.
    pub fn get_note(&self, id: &str) -> (r: Result<Note, DbError>)
        ensures
            match r {
                Ok(n) => {
                    &&& find_note(self@.notes, id@) == Some(n)
                    &&& n.id@ == id@
                    &&& has_note(self@.notes, id@)
                },
                Err(e) => {
                    &&& e == DbError::NotFound
                    &&& find_note(self@.notes, id@) is None
                    &&& !has_note(self@.notes, id@)
                },
            },
    {
        proof {
            lemma_find_note_has(self@.notes, id@);
        }
        match locate_note(&self.notes, id) {
            Some(i) => Ok(self.notes[i].clone()),
            None => Err(DbError::NotFound),
        }
    }

    /// Inserts a subject row built from the given id and timestamp.
    /// Succeeds exactly when the id is not already taken.
    pub fn create_subject_with(
        &mut self,
        id: String,
        name: &str,
        color_hex: &str,
        now: &str,
    ) -> (r: Result<Subject, DbError>)
        requires
            old(self).wf(),
        ensures
            final(self).wf(),
            match r {
                Ok(s) => {
                    &&& !has_subject(old(self)@.subjects, id@)
                    &&& s.id@ == id@
                    &&& s.name@ == name@
                    &&& s.color_hex@ == color_hex@
                    &&& s.created_at@ == now@
                    &&& s.updated_at@ == now@
                    &&& final(self)@.subjects == old(self)@.subjects.push(s)
                    &&& final(self)@.notes == old(self)@.notes
                },
                Err(e) => {
                    &&& e == DbError::IntegrityViolation
                    &&& has_subject(old(self)@.subjects, id@)
                    &&& final(self)@ == old(self)@
                },
            },
    {
        if contains_subject_id(&self.subjects, id.as_str()) {
            return Err(DbError::IntegrityViolation);
        }
        let s = Subject {
            id,
            name: String::from_str(name),
            color_hex: String::from_str(color_hex),
            created_at: String::from_str(now),
            updated_at: String::from_str(now),
        };
        let out = s.clone();
        proof {
            assert(forall|k: int|
                0 <= k < self@.subjects.len() ==> #[trigger] self@.subjects[k].id@ != s.id@);
        }
        self.subjects.push(s);
        proof {
            let osubs = old(self)@.subjects;
            let nsubs = self@.subjects;
            assert(subject_ids_unique(nsubs)) by {
                assert(forall|k: int| 0 <= k < osubs.len() ==> nsubs[k] == osubs[k]);
            }
            assert(fk_ok(self@)) by {
                assert forall|ix: int|
                    0 <= ix < self@.notes.len() implies has_subject(
                    nsubs,
                    #[trigger] self@.notes[ix].subject_id@,
                ) by {
                    let k = choose|k: int|
                        0 <= k < osubs.len() && osubs[k].id@ == self@.notes[ix].subject_id@;
                    assert(nsubs[k] == osubs[k]);
                }
            }
        }
        Ok(out)
    }

    /// Creates a subject under a freshly generated id, stamped with the
    /// current instant; `created_at` and `updated_at` start equal.
    pub fn create_subject(&mut self, name: &str, color_hex: &str) -> (r: Result<Subject, DbError>)
        requires
            old(self).wf(),
        ensures
            final(self).wf(),
            match r {
                Ok(s) => {
                    &&& !has_subject(old(self)@.subjects, s.id@)
                    &&& s.id@.len() == 36
                    &&& s.name@ == name@
                    &&& s.color_hex@ == color_hex@
                    &&& s.created_at@ == s.updated_at@
                    &&& final(self)@.subjects == old(self)@.subjects.push(s)
                    &&& final(self)@.notes == old(self)@.notes
                },
                Err(e) => {
                    &&& e == DbError::IntegrityViolation
                    &&& old(self)@.subjects.len() > 0
                    &&& final(self)@ == old(self)@
                },
            },
    {
        let id = fresh_id();
        let now = now_rfc3339();
        self.create_subject_with(id, name, color_hex, now.as_str())
    }

    /// Rewrites a subject's name and colour and re-stamps `updated_at`
    /// with the given instant; `created_at` is untouched. Succeeds exactly
    /// when the id exists.
    pub fn update_subject_at(
        &mut self,
        id: &str,
        name: &str,
        color_hex: &str,
        now: &str,
    ) -> (r: Result<Subject, DbError>)
        requires
            old(self).wf(),
        ensures
            final(self).wf(),
            match r {
                Ok(s) => {
                    &&& has_subject(old(self)@.subjects, id@)
                    &&& find_subject(old(self)@.subjects, id@) is Some
                    &&& s.id@ == id@
                    &&& s.name@ == name@
                    &&& s.color_hex@ == color_hex@
                    &&& s.created_at@ == find_subject(old(self)@.subjects, id@)->Some_0.created_at@
                    &&& s.updated_at@ == now@
                    &&& exists|i: int| {
                        &&& 0 <= i < old(self)@.subjects.len()
                        &&& (#[trigger] old(self)@.subjects[i]).id@ == id@
                        &&& final(self)@.subjects == old(self)@.subjects.update(i, s)
                    }
                    &&& final(self)@.notes == old(self)@.notes
                },
                Err(e) => {
                    &&& e == DbError::NotFound
                    &&& !has_subject(old(self)@.subjects, id@)
                    &&& final(self)@ == old(self)@
                },
            },
    {
        match locate_subject(&self.subjects, id) {
            None => Err(DbError::NotFound),
            Some(i) => {
                let updated = Subject {
                    id: self.subjects[i].id.clone(),
                    name: String::from_str(name),
                    color_hex: String::from_str(color_hex),
                    created_at: self.subjects[i].created_at.clone(),
                    updated_at: String::from_str(now),
                };
                let out = updated.clone();
                let ghost osubs = self.subjects@;
                let _ = self.subjects.remove(i);
                self.subjects.insert(i, updated);
                proof {
                    assert(self.subjects@ =~= osubs.update(i as int, out));
                    let nsubs = self@.subjects;
                    assert(forall|k: int|
                        0 <= k < nsubs.len() ==> #[trigger] nsubs[k].id@ == osubs[k].id@);
                    assert(subject_ids_unique(nsubs)) by {
                        assert forall|a: int, b: int|
                            0 <= a < b < nsubs.len() implies nsubs[a].id@ != nsubs[b].id@ by {
                            assert(nsubs[a].id@ == osubs[a].id@);
                            assert(nsubs[b].id@ == osubs[b].id@);
                        }
                    }
                    assert(fk_ok(self@)) by {
                        assert forall|ix: int|
                            0 <= ix < self@.notes.len() implies has_subject(
                            nsubs,
                            #[trigger] self@.notes[ix].subject_id@,
                        ) by {
                            let k = choose|k: int|
                                0 <= k < osubs.len() && osubs[k].id@
                                    == self@.notes[ix].subject_id@;
                            assert(nsubs[k].id@ == osubs[k].id@);
                        }
                    }
                    assert(has_subject(osubs, id@)) by {
                        assert(osubs[i as int].id@ == id@);
                    }
                }
                Ok(out)
            },
        }
    }

    /// Rewrites a subject's name and colour, re-stamping `updated_at`
    /// with the current instant.
    pub fn update_subject(&mut self, id: &str, name: &str, color_hex: &str) -> (r: Result<
        Subject,
        DbError,
    >)
        requires
            old(self).wf(),
        ensures
            final(self).wf(),
            match r {
                Ok(s) => {
                    &&& has_subject(old(self)@.subjects, id@)
                    &&& find_subject(old(self)@.subjects, id@) is Some
                    &&& s.id@ == id@
                    &&& s.name@ == name@
                    &&& s.color_hex@ == color_hex@
                    &&& s.created_at@ == find_subject(old(self)@.subjects, id@)->Some_0.created_at@
                    &&& exists|i: int| {
                        &&& 0 <= i < old(self)@.subjects.len()
                        &&& (#[trigger] old(self)@.subjects[i]).id@ == id@
                        &&& final(self)@.subjects == old(self)@.subjects.update(i, s)
                    }
                    &&& final(self)@.notes == old(self)@.notes
                },
                Err(e) => {
                    &&& e == DbError::NotFound
                    &&& !has_subject(old(self)@.subjects, id@)
                    &&& final(self)@ == old(self)@
                },
            },
    {
        let now = now_rfc3339();
        self.update_subject_at(id, name, color_hex, now.as_str())
    }

    /// Removes a subject and, first, every note that belongs to it.
    /// Deleting an absent id is a success that changes nothing.
    pub fn delete_subject(&mut self, id: &str)
        requires
            old(self).wf(),
        ensures
            final(self).wf(),
            final(self)@.notes == notes_excluding_subject(old(self)@.notes, id@),
            final(self)@.subjects == subjects_excluding_id(old(self)@.subjects, id@),
    {
        let kept_notes = select_notes_excluding_subject(&self.notes, id);
        let kept_subjects = select_subjects_excluding_id(&self.subjects, id);
        self.notes = kept_notes;
        self.subjects = kept_subjects;
        proof {
            let onotes = old(self)@.notes;
            let osubs = old(self)@.subjects;
            lemma_notes_excluding_subject_ids(onotes, id@);
            lemma_subjects_excluding_id_ids(osubs, id@);
            lemma_notes_excluding_subject_elems(onotes, id@);
            lemma_subjects_excluding_id_elems(osubs, id@);
            assert(fk_ok(self@)) by {
                assert forall|ix: int|
                    0 <= ix < self@.notes.len() implies has_subject(
                    self@.subjects,
                    #[trigger] self@.notes[ix].subject_id@,
                ) by {
                    let n = self@.notes[ix];
                    assert(onotes.contains(n));
                    let k3 = choose|k3: int| 0 <= k3 < onotes.len() && onotes[k3] == n;
                    assert(has_subject(osubs, onotes[k3].subject_id@));
                    let k = choose|k: int| 0 <= k < osubs.len() && osubs[k].id@ == n.subject_id@;
                    assert(n.subject_id@ != id@);
                    assert(osubs[k].id@ != id@);
                    assert(subjects_excluding_id(osubs, id@).contains(osubs[k]));
                    let k2 = choose|k2: int|
                        0 <= k2 < self@.subjects.len() && self@.subjects[k2] == osubs[k];
                    assert(self@.subjects[k2].id@ == n.subject_id@);
                }
            }
        }
    }

    /// Inserts a note row built from the given id and timestamp, with the
    /// empty-object content placeholder and empty search text. Succeeds
    /// exactly when the subject exists and the id is not already taken.
    pub fn create_note_with(
        &mut self,
        id: String,
        subject_id: &str,
        title: &str,
        now: &str,
    ) -> (r: Result<Note, DbError>)
        requires
            old(self).wf(),
        ensures
            final(self).wf(),
            match r {
                Ok(n) => {
                    &&& has_subject(old(self)@.subjects, subject_id@)
                    &&& !has_note(old(self)@.notes, id@)
                    &&& n.id@ == id@
                    &&& n.subject_id@ == subject_id@
                    &&& n.title@ == title@
                    &&& n.content_json@ == "{}"@
                    &&& n.plain_text@ == ""@
                    &&& n.plain_text@.len() == 0
                    &&& n.created_at@ == now@
                    &&& n.updated_at@ == now@
                    &&& final(self)@.notes == old(self)@.notes.push(n)
                    &&& final(self)@.subjects == old(self)@.subjects
                },
                Err(e) => {
                    &&& e == DbError::IntegrityViolation
                    &&& (!has_subject(old(self)@.subjects, subject_id@) || has_note(
                        old(self)@.notes,
                        id@,
                    ))
                    &&& final(self)@ == old(self)@
                },
            },
    {
        if !contains_subject_id(&self.subjects, subject_id) {
            return Err(DbError::IntegrityViolation);
        }
        if contains_note_id(&self.notes, id.as_str()) {
            return Err(DbError::IntegrityViolation);
        }
        let n = Note {
            id,
            subject_id: String::from_str(subject_id),
            title: String::from_str(title),
            content_json: String::from_str("{}"),
            plain_text: String::from_str(""),
            created_at: String::from_str(now),
            updated_at: String::from_str(now),
        };
        let out = n.clone();
        proof {
            reveal_strlit("");
            assert(forall|k: int|
                0 <= k < self@.notes.len() ==> #[trigger] self@.notes[k].id@ != n.id@);
        }
        self.notes.push(n);
        proof {
            let onotes = old(self)@.notes;
            let nnotes = self@.notes;
            assert(note_ids_unique(nnotes)) by {
                assert(forall|k: int| 0 <= k < onotes.len() ==> nnotes[k] == onotes[k]);
            }
            assert(fk_ok(self@)) by {
                assert forall|ix: int|
                    0 <= ix < nnotes.len() implies has_subject(
                    self@.subjects,
                    #[trigger] nnotes[ix].subject_id@,
                ) by {
                    if ix < onotes.len() {
                        assert(nnotes[ix] == onotes[ix]);
                    }
                }
            }
        }
        Ok(out)
    }

    /// Creates a note in an existing subject under a freshly generated
    /// id, stamped with the current instant; content starts as the empty
    /// object and the search text starts empty.
    pub fn create_note(&mut self, subject_id: &str, title: &str) -> (r: Result<Note, DbError>)
        requires
            old(self).wf(),
        ensures
            final(self).wf(),
            match r {
                Ok(n) => {
                    &&& has_subject(old(self)@.subjects, subject_id@)
                    &&& !has_note(old(self)@.notes, n.id@)
                    &&& n.id@.len() == 36
                    &&& n.subject_id@ == subject_id@
                    &&& n.title@ == title@
                    &&& n.content_json@ == "{}"@
                    &&& n.plain_text@ == ""@
                    &&& n.plain_text@.len() == 0
                    &&& n.created_at@ == n.updated_at@
                    &&& final(self)@.notes == old(self)@.notes.push(n)
                    &&& final(self)@.subjects == old(self)@.subjects
                },
                Err(e) => {
                    &&& e == DbError::IntegrityViolation
                    &&& (!has_subject(old(self)@.subjects, subject_id@) || old(
                        self,
                    )@.notes.len() > 0)
                    &&& final(self)@ == old(self)@
                },
            },
    {
        let id = fresh_id();
        let now = now_rfc3339();
        self.create_note_with(id, subject_id, title, now.as_str())
    }

    /// Overwrites a note's title, content and search text and re-stamps
    /// `updated_at` with the given instant; `created_at` and the owning
    /// subject are untouched. Succeeds exactly when the id exists.
    pub fn update_note_at(
        &mut self,
        id: &str,
        title: &str,
        content_json: &str,
        plain_text: &str,
        now: &str,
    ) -> (r: Result<Note, DbError>)
        requires
            old(self).wf(),
        ensures
            final(self).wf(),
            match r {
                Ok(n) => {
                    &&& has_note(old(self)@.notes, id@)
                    &&& find_note(old(self)@.notes, id@) is Some
                    &&& n.id@ == id@
                    &&& n.subject_id@ == find_note(old(self)@.notes, id@)->Some_0.subject_id@
                    &&& n.title@ == title@
                    &&& n.content_json@ == content_json@
                    &&& n.plain_text@ == plain_text@
                    &&& n.created_at@ == find_note(old(self)@.notes, id@)->Some_0.created_at@
                    &&& n.updated_at@ == now@
                    &&& exists|i: int| {
                        &&& 0 <= i < old(self)@.notes.len()
                        &&& (#[trigger] old(self)@.notes[i]).id@ == id@
                        &&& final(self)@.notes == old(self)@.notes.update(i, n)
                    }
                    &&& final(self)@.subjects == old(self)@.subjects
                },
                Err(e) => {
                    &&& e == DbError::NotFound
                    &&& !has_note(old(self)@.notes, id@)
                    &&& final(self)@ == old(self)@
                },
            },
    {
        match locate_note(&self.notes, id) {
            None => Err(DbError::NotFound),
            Some(i) => {
                let updated = Note {
                    id: self.notes[i].id.clone(),
                    subject_id: self.notes[i].subject_id.clone(),
                    title: String::from_str(title),
                    content_json: String::from_str(content_json),
                    plain_text: String::from_str(plain_text),
                    created_at: self.notes[i].created_at.clone(),
                    updated_at: String::from_str(now),
                };
                let out = updated.clone();
                let ghost onotes = self.notes@;
                let _ = self.notes.remove(i);
                self.notes.insert(i, updated);
                proof {
                    assert(self.notes@ =~= onotes.update(i as int, out));
                    let nnotes = self@.notes;
                    assert(forall|k: int|
                        0 <= k < nnotes.len() ==> #[trigger] nnotes[k].id@ == onotes[k].id@);
                    assert(note_ids_unique(nnotes)) by {
                        assert forall|a: int, b: int|
                            0 <= a < b < nnotes.len() implies nnotes[a].id@ != nnotes[b].id@ by {
                            assert(nnotes[a].id@ == onotes[a].id@);
                            assert(nnotes[b].id@ == onotes[b].id@);
                        }
                    }
                    assert(fk_ok(self@)) by {
                        assert forall|ix: int|
                            0 <= ix < nnotes.len() implies has_subject(
                            self@.subjects,
                            #[trigger] nnotes[ix].subject_id@,
                        ) by {
                            assert(nnotes[ix].subject_id@ == onotes[ix].subject_id@);
                        }
                    }
                    assert(has_note(onotes, id@)) by {
                        assert(onotes[i as int].id@ == id@);
                    }
                }
                Ok(out)
            },
        }
    }

    /// Overwrites a note's title, content and search text, re-stamping
    /// `updated_at` with the current instant.
    pub fn update_note(
        &mut self,
        id: &str,
        title: &str,
        content_json: &str,
        plain_text: &str,
    ) -> (r: Result<Note, DbError>)
        requires
            old(self).wf(),
        ensures
            final(self).wf(),
            match r {
                Ok(n) => {
                    &&& has_note(old(self)@.notes, id@)
                    &&& find_note(old(self)@.notes, id@) is Some
                    &&& n.id@ == id@
                    &&& n.subject_id@ == find_note(old(self)@.notes, id@)->Some_0.subject_id@
                    &&& n.title@ == title@
                    &&& n.content_json@ == content_json@
                    &&& n.plain_text@ == plain_text@
                    &&& n.created_at@ == find_note(old(self)@.notes, id@)->Some_0.created_at@
                    &&& exists|i: int| {
                        &&& 0 <= i < old(self)@.notes.len()
                        &&& (#[trigger] old(self)@.notes[i]).id@ == id@
                        &&& final(self)@.notes == old(self)@.notes.update(i, n)
                    }
                    &&& final(self)@.subjects == old(self)@.subjects
                },
                Err(e) => {
                    &&& e == DbError::NotFound
                    &&& !has_note(old(self)@.notes, id@)
                    &&& final(self)@ == old(self)@
                },
            },
    {
        let now = now_rfc3339();
        self.update_note_at(id, title, content_json, plain_text, now.as_str())
    }

    /// Removes one note by id. Deleting an absent id is a success that
    /// changes nothing.
    pub fn delete_note(&mut self, id: &str)
        requires
            old(self).wf(),
        ensures
            final(self).wf(),
            final(self)@.notes == notes_excluding_id(old(self)@.notes, id@),
            final(self)@.subjects == old(self)@.subjects,
    {
        let kept = select_notes_excluding_id(&self.notes, id);
        self.notes = kept;
        proof {
            let onotes = old(self)@.notes;
            lemma_notes_excluding_id_ids(onotes, id@);
            lemma_notes_excluding_id_elems(onotes, id@);
            assert(fk_ok(self@)) by {
                assert forall|ix: int|
                    0 <= ix < self@.notes.len() implies has_subject(
                    self@.subjects,
                    #[trigger] self@.notes[ix].subject_id@,
                ) by {
                    let n = self@.notes[ix];
                    assert(onotes.contains(n));
                    let k3 = choose|k3: int| 0 <= k3 < onotes.len() && onotes[k3] == n;
                    assert(has_subject(self@.subjects, onotes[k3].subject_id@));
                }
            }
        }
    }

    /// Notes whose title or search text contains the query, most recently
    /// updated first, capped at twenty rows. The empty query matches
    /// every note.
    pub fn search_notes(&self, query: &str) -> (r: Vec<Note>)
        ensures
            notes_sorted_by_updated_desc(r@),
            r@.len() == if matching_notes(self@.notes, query@).len() <= 20 {
                matching_notes(self@.notes, query@).len() as int
            } else {
                20
            },
            forall|k: int|
                0 <= k < r@.len() ==> note_matches(query@, #[trigger] r@[k])
                    && self@.notes.contains(r@[k]),
            exists|full: Seq<Note>| {
                &&& #[trigger] full.to_multiset() == matching_notes(
                    self@.notes,
                    query@,
                ).to_multiset()
                &&& notes_sorted_by_updated_desc(full)
                &&& r@ == full.take(r@.len() as int)
            },
    {
        let picked = select_matching_notes(&self.notes, query);
        let mut sorted = sort_notes_by_updated_desc(picked);
        let ghost full = sorted@;
        if sorted.len() > 20 {
            sorted.truncate(20);
            proof {
                assert(sorted@ =~= full.take(20));
            }
        } else {
            proof {
                assert(sorted@ =~= full.take(sorted@.len() as int));
            }
        }
        proof {
            assert(notes_sorted_by_updated_desc(sorted@)) by {
                assert(forall|k: int|
                    0 <= k < sorted@.len() ==> sorted@[k] == full[k]);
            }
            lemma_matching_notes_elems(self@.notes, query@);
            let m = matching_notes(self@.notes, query@);
            assert forall|k: int|
                0 <= k < sorted@.len() implies note_matches(query@, #[trigger] sorted@[k])
                && self@.notes.contains(sorted@[k]) by {
                assert(sorted@[k] == full[k]);
                assert(full.contains(full[k]));
                assert(full.to_multiset().count(full[k]) > 0);
                assert(m.to_multiset().count(full[k]) > 0);
                assert(m.contains(full[k]));
                let k2 = choose|k2: int| 0 <= k2 < m.len() && m[k2] == full[k];
                assert(note_matches(query@, m[k2]));
                assert(self@.notes.contains(m[k2]));
            }
        }
        sorted
    }

    /// Rebuilds a store from previously persisted rows, admitting them
    /// exactly when they satisfy the store's invariants: unique ids in
    /// both tables and no note without its subject.
    pub fn restore(subjects: Vec<Subject>, notes: Vec<Note>) -> (r: Result<Database, DbError>)
        ensures
            match r {
                Ok(db) => {
                    &&& db.wf()
                    &&& db@.subjects == subjects@
                    &&& db@.notes == notes@
                },
                Err(e) => {
                    &&& e == DbError::IntegrityViolation
                    &&& !store_wf(StoreView { subjects: subjects@, notes: notes@ })
                },
            },
            r is Ok <==> store_wf(StoreView { subjects: subjects@, notes: notes@ }),
    {
        if !subject_ids_distinct(&subjects) {
            return Err(DbError::IntegrityViolation);
        }
        if !note_ids_distinct(&notes) {
            return Err(DbError::IntegrityViolation);
        }
        if !notes_reference_subjects(&notes, &subjects) {
            return Err(DbError::IntegrityViolation);
        }
        Ok(Database { subjects, notes })
    }
}

} // verus!
