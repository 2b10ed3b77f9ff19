use noted::notes::note_le_exec;
use noted::notes::sort_notes;
use noted::Note;

fn create_note(id: i32, name: &str, text: &str, completed: bool) -> Note {
    Note { id, name: name.to_owned(), text: text.to_owned(), completed }
}

#[test]
fn notes_sorting() {
    let notes = vec![
        create_note(1, "test", "test", true),
        create_note(2, "test", "test", false),
        create_note(3, "test", "test", true),
        create_note(4, "test", "test", false),
    ];

    let model = vec![
        create_note(2, "test", "test", false),
        create_note(4, "test", "test", false),
        create_note(1, "test", "test", true),
        create_note(3, "test", "test", true),
    ];

    let notes = sort_notes(notes);

    assert_eq!(notes, model)
}

#[test]
fn sorting_groups_incomplete_before_complete() {
    let notes = vec![
        create_note(1, "a", "", true),
        create_note(2, "b", "", false),
        create_note(3, "c", "", true),
        create_note(4, "d", "", false),
    ];
    let sorted = sort_notes(notes);
    let ids: Vec<i32> = sorted.iter().map(|n| n.id).collect();
    assert_eq!(ids, vec![2, 4, 1, 3]);
}

#[test]
fn comparison_operators_follow_canonical_order() {
    let incomplete = create_note(5, "z", "z", false);
    let completed = create_note(1, "a", "a", true);
    assert!(incomplete < completed);
    assert!(completed > incomplete);
    assert!(create_note(1, "a", "a", false) < create_note(2, "a", "a", false));
    assert_eq!(
        create_note(1, "a", "a", false).partial_cmp(&create_note(1, "a", "a", false)),
        Some(std::cmp::Ordering::Equal)
    );
}

#[test]
fn ordering_breaks_ties_by_name_then_text() {
    let a = create_note(1, "apple", "x", false);
    let b = create_note(1, "banana", "x", false);
    assert!(note_le_exec(&a, &b));
    assert!(!note_le_exec(&b, &a));
    let c = create_note(1, "apple", "y", false);
    assert!(note_le_exec(&a, &c));
    assert!(!note_le_exec(&c, &a));
}
