use noted::notes::sort_notes;
use noted::Database;
use noted::Note;

fn fresh_db() -> Database {
    Database::new_in_memory().unwrap()
}

fn sorted_all(db: &Database) -> Vec<Note> {
    sort_notes(db.get_all_notes().unwrap())
}

#[test]
fn empty_notes_contain_no_elements() {
    let db = fresh_db();
    assert_eq!(db.get_all_notes().unwrap(), vec![]);
}

#[test]
fn adding_and_removing_note() {
    let mut db = fresh_db();
    let note = db.add_note("test", "testing functionality").unwrap();
    db.remove_note(note.id).unwrap();
    assert_eq!(db.get_all_notes().unwrap(), vec![]);
}

#[test]
fn adding_one_is_stored_correctly() {
    let mut db = fresh_db();
    db.add_note("test", "testing functionality").unwrap();
    let expected = Note {
        id: 1,
        name: "test".to_owned(),
        text: "testing functionality".to_owned(),
        completed: false,
    };
    assert_eq!(db.get_all_notes().unwrap(), vec![expected]);
}

#[test]
fn completing_a_task() {
    let mut db = fresh_db();
    let note = db.add_note("test", "testing functionality").unwrap();
    db.complete_a_note(note.id).unwrap();
    let expected = Note {
        id: 1,
        name: "test".to_owned(),
        text: "testing functionality".to_owned(),
        completed: true,
    };
    assert_eq!(db.get_all_notes().unwrap(), vec![expected]);
}

#[test]
fn renaming_a_task() {
    let mut db = fresh_db();
    let note = db.add_note("test", "testing functionality").unwrap();
    db.rename_note(note.id, "changed").unwrap();
    let expected = Note {
        id: 1,
        name: "changed".to_owned(),
        text: "testing functionality".to_owned(),
        completed: false,
    };
    assert_eq!(db.get_all_notes().unwrap(), vec![expected]);
}

#[test]
fn changing_note_text() {
    let mut db = fresh_db();
    let note = db.add_note("test", "testing functionality").unwrap();
    db.change_note_text(note.id, "changed text :D").unwrap();
    let expected = Note {
        id: 1,
        name: "test".to_owned(),
        text: "changed text :D".to_owned(),
        completed: false,
    };
    assert_eq!(db.get_all_notes().unwrap(), vec![expected]);
}

#[test]
fn ids_are_assigned_consecutively_from_one() {
    let mut db = fresh_db();
    let a = db.add_note("first", "").unwrap();
    let b = db.add_note("second", "two").unwrap();
    let c = db.add_note("third", "three").unwrap();
    assert_eq!((a.id, b.id, c.id), (1, 2, 3));
    let all = sorted_all(&db);
    let ids: Vec<i32> = all.iter().map(|n| n.id).collect();
    assert_eq!(ids, vec![1, 2, 3]);
    assert!(all.iter().all(|n| !n.completed));
}

#[test]
fn removed_id_is_never_reassigned() {
    let mut db = fresh_db();
    let a = db.add_note("first", "").unwrap();
    db.remove_note(a.id).unwrap();
    let b = db.add_note("second", "").unwrap();
    assert_eq!(b.id, 2);
}

#[test]
fn removing_twice_is_idempotent() {
    let mut db = fresh_db();
    let keep = db.add_note("keep", "").unwrap();
    let gone = db.add_note("gone", "").unwrap();
    db.remove_note(gone.id).unwrap();
    let after_once = sorted_all(&db);
    db.remove_note(gone.id).unwrap();
    let after_twice = sorted_all(&db);
    assert_eq!(after_once, after_twice);
    assert_eq!(after_twice[0].id, keep.id);
}

#[test]
fn completing_twice_keeps_completed_without_error() {
    let mut db = fresh_db();
    let note = db.add_note("test", "testing functionality").unwrap();
    db.complete_a_note(note.id).unwrap();
    db.complete_a_note(note.id).unwrap();
    let all = db.get_all_notes().unwrap();
    assert!(all.len() == 1 && all[0].completed);
}

#[test]
fn uncompleting_restores_not_completed() {
    let mut db = fresh_db();
    let note = db.add_note("test", "").unwrap();
    db.complete_a_note(note.id).unwrap();
    db.uncomplete_a_note(note.id).unwrap();
    let all = db.get_all_notes().unwrap();
    assert!(all.len() == 1 && !all[0].completed);
}

#[test]
fn completing_an_absent_id_is_a_silent_no_op() {
    let mut db = fresh_db();
    db.add_note("test", "").unwrap();
    let before = sorted_all(&db);
    db.complete_a_note(42).unwrap();
    assert_eq!(before, sorted_all(&db));
}

#[test]
fn search_matches_prefix_pattern() {
    let mut db = fresh_db();
    db.add_note("test", "").unwrap();
    db.add_note("best", "").unwrap();
    let found = db.search_notes("te%").unwrap();
    assert!(found.len() == 1 && found[0].name == "test");
}

#[test]
fn search_underscore_matches_exactly_one_character() {
    let mut db = fresh_db();
    db.add_note("test", "").unwrap();
    db.add_note("tst", "").unwrap();
    let found = db.search_notes("t_st").unwrap();
    assert!(found.len() == 1 && found[0].name == "test");
}

#[test]
fn search_ignores_ascii_case() {
    let mut db = fresh_db();
    db.add_note("TEST", "").unwrap();
    let found = db.search_notes("te%").unwrap();
    assert!(found.len() == 1 && found[0].name == "TEST");
}

#[test]
fn search_with_no_match_returns_empty_not_error() {
    let mut db = fresh_db();
    db.add_note("test", "").unwrap();
    assert_eq!(db.search_notes("zzz%").unwrap(), vec![]);
}

#[test]
fn renaming_an_absent_id_leaves_notes_unchanged() {
    let mut db = fresh_db();
    db.add_note("test", "body").unwrap();
    let before = sorted_all(&db);
    db.rename_note(99, "changed").unwrap();
    assert_eq!(before, sorted_all(&db));
}

#[test]
fn changing_text_of_an_absent_id_leaves_notes_unchanged() {
    let mut db = fresh_db();
    db.add_note("test", "body").unwrap();
    let before = sorted_all(&db);
    db.change_note_text(99, "changed").unwrap();
    assert_eq!(before, sorted_all(&db));
}

#[test]
fn empty_name_and_text_are_stored() {
    let mut db = fresh_db();
    let note = db.add_note("", "").unwrap();
    assert_eq!(note.name, "");
    assert_eq!(note.text, "");
    assert_eq!(db.get_all_notes().unwrap().len(), 1);
}
