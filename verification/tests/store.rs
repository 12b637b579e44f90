use recallify::model::DbError;
use recallify::model::Note;
use recallify::model::Subject;
use recallify::store::Database;

fn subject_row(id: &str, name: &str) -> Subject {
    Subject {
        id: id.to_string(),
        name: name.to_string(),
        color_hex: "#123456".to_string(),
        created_at: "2024-01-01T00:00:00+00:00".to_string(),
        updated_at: "2024-01-01T00:00:00+00:00".to_string(),
    }
}

fn note_row(id: &str, subject_id: &str, title: &str, updated_at: &str) -> Note {
    Note {
        id: id.to_string(),
        subject_id: subject_id.to_string(),
        title: title.to_string(),
        content_json: "{}".to_string(),
        plain_text: String::new(),
        created_at: "2024-01-01T00:00:00+00:00".to_string(),
        updated_at: updated_at.to_string(),
    }
}

#[test]
fn round_trip_note() {
    let mut db = Database::new();
    let s = db.create_subject("Math", "#FF0000").unwrap();
    let n = db.create_note(&s.id, "Derivatives").unwrap();
    let fetched = db.get_note(&n.id).unwrap();
    assert_eq!(fetched, n);
}

#[test]
fn idempotent_delete_note() {
    let mut db = Database::new();
    let s = db.create_subject_with("s1".to_string(), "Math", "#FF0000", "2024-01-01T00:00:00+00:00")
        .unwrap();
    db.create_note_with("n1".to_string(), &s.id, "a", "2024-01-02T00:00:00+00:00").unwrap();
    db.delete_note("no-such-note");
    assert_eq!(db.get_all_notes().len(), 1);
    assert_eq!(db.get_subjects().len(), 1);
}

#[test]
fn idempotent_delete_subject() {
    let mut db = Database::new();
    db.create_subject_with("s1".to_string(), "Math", "#FF0000", "2024-01-01T00:00:00+00:00")
        .unwrap();
    db.create_note_with("n1".to_string(), "s1", "a", "2024-01-02T00:00:00+00:00").unwrap();
    db.delete_subject("no-such-subject");
    assert_eq!(db.get_subjects().len(), 1);
    assert_eq!(db.get_all_notes().len(), 1);
}

#[test]
fn cascade_delete() {
    let mut db = Database::new();
    db.create_subject_with("s".to_string(), "S", "#111111", "2024-01-01T00:00:00+00:00").unwrap();
    db.create_subject_with("s2".to_string(), "S2", "#222222", "2024-01-01T00:00:00+00:00")
        .unwrap();
    db.create_note_with("n1".to_string(), "s", "one", "2024-01-02T00:00:00+00:00").unwrap();
    db.create_note_with("n2".to_string(), "s", "two", "2024-01-03T00:00:00+00:00").unwrap();
    db.create_note_with("n3".to_string(), "s2", "three", "2024-01-04T00:00:00+00:00").unwrap();
    db.delete_subject("s");
    let subjects = db.get_subjects();
    assert_eq!(subjects.len(), 1);
    assert_eq!(subjects[0].id, "s2");
    let notes = db.get_all_notes();
    assert_eq!(notes.len(), 1);
    assert_eq!(notes[0].id, "n3");
    assert!(db.get_note("n1").is_err());
    assert!(db.get_note("n2").is_err());
}

#[test]
fn subjects_sorted_by_name_with_ties() {
    let mut db = Database::new();
    for (id, name) in [("a", "Zoology"), ("b", "Algebra"), ("c", "Music"), ("d", "Algebra")] {
        db.create_subject_with(id.to_string(), name, "#000000", "2024-01-01T00:00:00+00:00")
            .unwrap();
    }
    let listed = db.get_subjects();
    assert_eq!(listed.len(), 4);
    let names: Vec<&str> = listed.iter().map(|s| s.name.as_str()).collect();
    assert_eq!(names, vec!["Algebra", "Algebra", "Music", "Zoology"]);
}

#[test]
fn notes_listed_most_recent_first() {
    let mut db = Database::new();
    db.create_subject_with("s".to_string(), "S", "#111111", "2024-01-01T00:00:00+00:00").unwrap();
    db.create_note_with("old".to_string(), "s", "old note", "2024-01-02T00:00:00+00:00")
        .map(|_| ())
        .unwrap();
    db.create_note_with("new".to_string(), "s", "new note", "2024-03-02T00:00:00+00:00")
        .map(|_| ())
        .unwrap();
    db.create_note_with("mid".to_string(), "s", "mid note", "2024-02-02T00:00:00+00:00")
        .map(|_| ())
        .unwrap();
    let notes = db.get_notes("s");
    let ids: Vec<&str> = notes.iter().map(|n| n.id.as_str()).collect();
    assert_eq!(ids, vec!["new", "mid", "old"]);
    let all = db.get_all_notes();
    assert_eq!(all.len(), 3);
    assert_eq!(all[0].id, "new");
}

#[test]
fn search_empty_query_returns_all_capped() {
    let mut db = Database::new();
    db.create_subject_with("s".to_string(), "S", "#111111", "2024-01-01T00:00:00+00:00").unwrap();
    for i in 0..25 {
        let id = format!("n{:02}", i);
        let stamp = format!("2024-01-01T00:00:{:02}+00:00", i);
        db.create_note_with(id, "s", "t", &stamp).unwrap();
    }
    let hits = db.search_notes("");
    assert_eq!(hits.len(), 20);
    assert_eq!(hits[0].id, "n24");
    assert_eq!(hits[19].id, "n05");
    for w in hits.windows(2) {
        assert!(w[0].updated_at >= w[1].updated_at);
    }
}

#[test]
fn search_no_match_returns_empty() {
    let mut db = Database::new();
    db.create_subject_with("s".to_string(), "S", "#111111", "2024-01-01T00:00:00+00:00").unwrap();
    db.create_note_with("n1".to_string(), "s", "alpha", "2024-01-02T00:00:00+00:00").unwrap();
    let hits = db.search_notes("xyz123");
    assert!(hits.is_empty());
}

#[test]
fn search_matches_title_or_plain_text() {
    let mut db = Database::new();
    db.create_subject_with("s".to_string(), "S", "#111111", "2024-01-01T00:00:00+00:00").unwrap();
    db.create_note_with("n1".to_string(), "s", "calculus intro", "2024-01-02T00:00:00+00:00")
        .unwrap();
    db.create_note_with("n2".to_string(), "s", "untitled", "2024-01-03T00:00:00+00:00").unwrap();
    db.update_note_at("n2", "untitled", "{}", "notes about calculus", "2024-01-04T00:00:00+00:00")
        .unwrap();
    let hits = db.search_notes("calculus");
    let ids: Vec<&str> = hits.iter().map(|n| n.id.as_str()).collect();
    assert_eq!(ids, vec!["n2", "n1"]);
}

#[test]
fn foreign_key_enforced_on_create_note() {
    let mut db = Database::new();
    let r = db.create_note("nonexistent", "t");
    assert_eq!(r.unwrap_err(), DbError::IntegrityViolation);
    assert!(db.get_all_notes().is_empty());
}

#[test]
fn update_missing_rows_not_found() {
    let mut db = Database::new();
    assert_eq!(db.update_subject("ghost", "x", "#000000").unwrap_err(), DbError::NotFound);
    assert_eq!(db.update_note("ghost", "x", "{}", "").unwrap_err(), DbError::NotFound);
    assert_eq!(db.get_note("ghost").unwrap_err(), DbError::NotFound);
}

#[test]
fn update_refreshes_updated_at_only() {
    let mut db = Database::new();
    db.create_subject_with("s".to_string(), "S", "#111111", "2024-01-01T00:00:00+00:00").unwrap();
    let n = db.create_note_with("n".to_string(), "s", "t", "2024-01-02T00:00:00+00:00").unwrap();
    let updated = db
        .update_note_at("n", "t2", "{\"k\":1}", "body", "2024-01-05T00:00:00+00:00")
        .unwrap();
    assert_eq!(updated.created_at, n.created_at);
    assert_eq!(updated.updated_at, "2024-01-05T00:00:00+00:00");
    assert!(updated.updated_at > n.updated_at);
    let s2 = db
        .update_subject_at("s", "S renamed", "#222222", "2024-01-06T00:00:00+00:00")
        .unwrap();
    assert_eq!(s2.created_at, "2024-01-01T00:00:00+00:00");
    assert_eq!(s2.updated_at, "2024-01-06T00:00:00+00:00");
}

#[test]
fn create_with_taken_id_is_conflict() {
    let mut db = Database::new();
    db.create_subject_with("s".to_string(), "S", "#111111", "2024-01-01T00:00:00+00:00").unwrap();
    let r = db.create_subject_with("s".to_string(), "T", "#222222", "2024-01-02T00:00:00+00:00");
    assert_eq!(r.unwrap_err(), DbError::IntegrityViolation);
    db.create_note_with("n".to_string(), "s", "t", "2024-01-02T00:00:00+00:00").unwrap();
    let r2 = db.create_note_with("n".to_string(), "s", "t2", "2024-01-03T00:00:00+00:00");
    assert_eq!(r2.unwrap_err(), DbError::IntegrityViolation);
}

#[test]
fn generated_ids_are_distinct() {
    let mut db = Database::new();
    let a = db.create_subject("A", "#000000").unwrap();
    let b = db.create_subject("B", "#000000").unwrap();
    assert_ne!(a.id, b.id);
    assert_eq!(a.id.len(), 36);
    assert_eq!(b.id.len(), 36);
}

#[test]
fn restore_accepts_consistent_rows() {
    let subjects = vec![subject_row("s1", "Math"), subject_row("s2", "Art")];
    let notes = vec![note_row("n1", "s1", "a", "2024-01-02T00:00:00+00:00")];
    let db = Database::restore(subjects, notes).unwrap();
    assert_eq!(db.get_subjects().len(), 2);
    assert_eq!(db.get_all_notes().len(), 1);
}

#[test]
fn restore_rejects_duplicate_or_orphan_rows() {
    let dup_subjects = vec![subject_row("s1", "Math"), subject_row("s1", "Art")];
    assert!(matches!(
        Database::restore(dup_subjects, Vec::new()),
        Err(DbError::IntegrityViolation)
    ));
    let subjects = vec![subject_row("s1", "Math")];
    let dup_notes = vec![
        note_row("n1", "s1", "a", "2024-01-02T00:00:00+00:00"),
        note_row("n1", "s1", "b", "2024-01-03T00:00:00+00:00"),
    ];
    assert!(matches!(
        Database::restore(subjects, dup_notes),
        Err(DbError::IntegrityViolation)
    ));
    let subjects2 = vec![subject_row("s1", "Math")];
    let orphan = vec![note_row("n1", "missing", "a", "2024-01-02T00:00:00+00:00")];
    assert!(matches!(
        Database::restore(subjects2, orphan),
        Err(DbError::IntegrityViolation)
    ));
}

#[test]
fn concrete_scenario() {
    let mut db = Database::new();
    let subject = db.create_subject("Math", "#FF0000").unwrap();
    assert_eq!(subject.id.len(), 36);
    assert_eq!(subject.name, "Math");
    assert_eq!(subject.color_hex, "#FF0000");
    assert_eq!(subject.created_at, subject.updated_at);

    let note = db.create_note(&subject.id, "Derivatives").unwrap();
    assert_eq!(note.subject_id, subject.id);
    assert_eq!(note.title, "Derivatives");
    assert_eq!(note.content_json, "{}");
    assert_eq!(note.plain_text, "");

    let updated = db
        .update_note(&note.id, "Derivatives", "{}", "chain rule examples")
        .unwrap();
    assert_eq!(updated.plain_text, "chain rule examples");

    let hits = db.search_notes("chain");
    assert_eq!(hits.len(), 1);
    assert_eq!(hits[0].id, note.id);
    assert_eq!(hits[0], updated);
}
