use cosmic_edit::cursor::Cursor;
use cosmic_edit::history::CosmicEditHistory;
use cosmic_edit::history::EditHistoryItem;
use cosmic_edit::history::MAX_EDITS;
use cosmic_text::Attrs;
use cosmic_text::AttrsOwned;

fn item(text: &str, index: usize) -> EditHistoryItem {
    EditHistoryItem {
        cursor: Cursor::new(0, index),
        lines: vec![vec![(String::from(text), AttrsOwned::new(Attrs::new()))]],
    }
}

fn text_of(item: &EditHistoryItem) -> String {
    item.lines[0][0].0.clone()
}

#[test]
fn new_history_is_empty() {
    let h = CosmicEditHistory::new();
    assert_eq!(h.edits.len(), 0);
    assert_eq!(h.current_edit, 0);
    let d = CosmicEditHistory::default();
    assert_eq!(d.edits.len(), 0);
    assert_eq!(d.current_edit, 0);
}

#[test]
fn nothing_to_undo_or_redo_in_an_empty_history() {
    let mut h = CosmicEditHistory::new();
    assert!(h.undo(item("a", 1)).is_none());
    assert!(h.redo().is_none());
    assert_eq!(h.edits.len(), 0);
    assert_eq!(h.current_edit, 0);
}

#[test]
fn undo_restores_the_snapshot_taken_before_the_edit() {
    let mut h = CosmicEditHistory::new();
    h.record(item("", 0));
    assert_eq!(h.current_edit, 1);
    let back = h.undo(item("a", 1)).unwrap();
    assert_eq!(text_of(&back), "");
    assert_eq!(back.cursor, Cursor::new(0, 0));
    assert_eq!(h.current_edit, 0);
    assert_eq!(h.edits.len(), 2);
}

#[test]
fn redo_restores_what_undo_took_back() {
    let mut h = CosmicEditHistory::new();
    h.record(item("", 0));
    h.undo(item("a", 1)).unwrap();
    let forth = h.redo().unwrap();
    assert_eq!(text_of(&forth), "a");
    assert_eq!(forth.cursor, Cursor::new(0, 1));
    assert_eq!(h.current_edit, 1);
    assert!(h.redo().is_none());
}

#[test]
fn undo_after_redo_restores_the_state_before_the_edit() {
    let mut h = CosmicEditHistory::new();
    h.record(item("", 0));
    h.record(item("a", 1));
    let first = h.undo(item("ab", 2)).unwrap();
    assert_eq!(text_of(&first), "a");
    let redone = h.redo().unwrap();
    assert_eq!(text_of(&redone), "ab");
    let again = h.undo(redone).unwrap();
    assert_eq!(text_of(&again), "a");
    assert_eq!(again.cursor, Cursor::new(0, 1));
    assert_eq!(h.current_edit, 1);
    assert_eq!(h.edits.len(), 3);
}

#[test]
fn a_new_edit_drops_what_could_be_redone() {
    let mut h = CosmicEditHistory::new();
    h.record(item("", 0));
    h.record(item("a", 1));
    h.undo(item("ab", 2)).unwrap();
    h.undo(item("a", 1)).unwrap();
    assert_eq!(h.current_edit, 0);
    h.record(item("", 0));
    assert_eq!(h.edits.len(), 1);
    assert_eq!(h.current_edit, 1);
    assert!(h.redo().is_none());
}

#[test]
fn history_is_bounded() {
    let mut h = CosmicEditHistory::new();
    for i in 0..MAX_EDITS + 5 {
        h.record(item("x", i));
    }
    assert_eq!(h.edits.len(), MAX_EDITS);
    assert_eq!(h.current_edit, MAX_EDITS);
    assert_eq!(h.edits[0].cursor.index, 5);
    let back = h.undo(item("live", 0)).unwrap();
    assert_eq!(back.cursor.index, MAX_EDITS + 4);
    assert_eq!(h.edits.len(), MAX_EDITS);
    assert_eq!(h.current_edit, MAX_EDITS - 2);
    assert_eq!(text_of(&h.redo().unwrap()), "live");
}

#[test]
fn duplicate_copies_a_snapshot() {
    let a = item("abc", 2);
    let b = a.duplicate();
    assert_eq!(b.cursor, a.cursor);
    assert_eq!(b.lines, a.lines);
}
