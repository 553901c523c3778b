use cosmic_edit::buffer::TextBuffer;
use cosmic_edit::cursor::Affinity;
use cosmic_edit::cursor::Cursor;
use cosmic_edit::cursor::Selection;
use cosmic_edit::editor::cursor_stands;
use cosmic_edit::editor::history_stands;
use cosmic_edit::editor::lines_stand;
use cosmic_edit::editor::CosmicEditor;
use cosmic_edit::editor::Direction;
use cosmic_edit::history::CosmicEditHistory;
use cosmic_edit::layout::cosmic_buffer_size;
use cosmic_edit::layout::CosmicMode;
use cosmic_edit::layout::CosmicTextPosition;
use cosmic_edit::layout::CosmicWidgetSize;
use cosmic_edit::layout::Extent;
use cosmic_edit::text::CosmicText;
use cosmic_edit::text::TextForm;
use cosmic_text::Attrs;
use cosmic_text::AttrsOwned;
use cosmic_text::Color;
use cosmic_text::Metrics;

fn plain() -> AttrsOwned {
    AttrsOwned::new(Attrs::new())
}

fn red() -> AttrsOwned {
    AttrsOwned::new(Attrs::new().color(Color::rgb(255, 0, 0)))
}

fn editor_with(text: &str) -> (CosmicEditor, CosmicEditHistory) {
    let mut editor = CosmicEditor::new(TextBuffer::new(Metrics::new(14.0, 20.0)), plain());
    let mut history = CosmicEditHistory::new();
    if !text.is_empty() {
        assert!(editor.insert_text(text, None, &mut history));
    }
    (editor, history)
}

fn runs(editor: &CosmicEditor) -> Vec<Vec<(String, AttrsOwned)>> {
    editor.lines().clone()
}

fn line(parts: &[(&str, AttrsOwned)]) -> Vec<(String, AttrsOwned)> {
    parts.iter().map(|(s, a)| (String::from(*s), a.clone())).collect()
}

#[test]
fn new_editor_has_one_empty_line() {
    let editor = CosmicEditor::new(TextBuffer::new(Metrics::new(14.0, 20.0)), plain());
    assert_eq!(editor.lines().len(), 1);
    assert!(editor.lines()[0].is_empty());
    assert_eq!(editor.cursor(), Cursor::new(0, 0));
    assert_eq!(editor.selection(), None);
    assert!(editor.redraw());
    assert!(editor.cursor_visible());
    assert_eq!(editor.get_text(), "");
}

#[test]
fn flags_can_be_set() {
    let mut editor = CosmicEditor::new(TextBuffer::new(Metrics::new(14.0, 20.0)), plain());
    editor.set_redraw(false);
    assert!(!editor.redraw());
    editor.set_cursor_visible(false);
    assert!(!editor.cursor_visible());
}

#[test]
fn insert_puts_text_at_the_cursor() {
    let (mut editor, mut history) = editor_with("hello");
    assert_eq!(editor.get_text(), "hello");
    assert_eq!(editor.cursor(), Cursor::new(0, 5));
    editor.set_cursor(Cursor::new(0, 2), &mut history);
    assert!(editor.insert_text("XY", None, &mut history));
    assert_eq!(editor.get_text(), "heXYllo");
    assert_eq!(editor.cursor(), Cursor::new(0, 4));
}

#[test]
fn insert_inside_a_run_splits_it_in_three() {
    let (mut editor, mut history) = editor_with("abcd");
    editor.set_cursor(Cursor::new(0, 2), &mut history);
    assert!(editor.insert_text("X", Some(red()), &mut history));
    assert_eq!(runs(&editor), vec![line(&[("ab", plain()), ("X", red()), ("cd", plain())])]);
}

#[test]
fn insert_at_a_run_boundary_does_not_merge_or_split() {
    let (mut editor, mut history) = editor_with("ab");
    assert!(editor.insert_text("cd", None, &mut history));
    assert_eq!(runs(&editor), vec![line(&[("ab", plain()), ("cd", plain())])]);
    editor.set_cursor(Cursor::new(0, 0), &mut history);
    assert!(editor.insert_text("X", Some(red()), &mut history));
    assert_eq!(
        runs(&editor),
        vec![line(&[("X", red()), ("ab", plain()), ("cd", plain())])]
    );
}

#[test]
fn insert_inherits_attributes_from_the_run_before() {
    let mut editor = CosmicEditor::new(TextBuffer::new(Metrics::new(14.0, 20.0)), plain());
    let mut history = CosmicEditHistory::new();
    assert!(editor.insert_text("ab", Some(red()), &mut history));
    assert!(editor.insert_text("c", None, &mut history));
    assert_eq!(runs(&editor), vec![line(&[("ab", red()), ("c", red())])]);
    editor.set_cursor(Cursor::new(0, 0), &mut history);
    assert!(editor.insert_text("d", None, &mut history));
    assert_eq!(runs(&editor), vec![line(&[("d", red()), ("ab", red()), ("c", red())])]);
}

#[test]
fn insert_with_line_breaks_makes_lines() {
    let (mut editor, mut history) = editor_with("abcd");
    editor.set_cursor(Cursor::new(0, 2), &mut history);
    assert!(editor.insert_text("1\n2\n3", Some(red()), &mut history));
    assert_eq!(editor.get_text(), "ab1\n2\n3cd");
    assert_eq!(
        runs(&editor),
        vec![
            line(&[("ab", plain()), ("1", red())]),
            line(&[("2", red())]),
            line(&[("3", red()), ("cd", plain())]),
        ]
    );
    assert_eq!(editor.cursor(), Cursor::new(2, 1));
}

#[test]
fn insert_of_a_line_break_alone_splits_the_line() {
    let (mut editor, mut history) = editor_with("abcd");
    editor.set_cursor(Cursor::new(0, 2), &mut history);
    assert!(editor.insert_text("\n", None, &mut history));
    assert_eq!(editor.get_text(), "ab\ncd");
    assert_eq!(editor.cursor(), Cursor::new(1, 0));
    assert_eq!(editor.lines().len(), 2);
}

#[test]
fn insert_nothing_changes_nothing() {
    let (mut editor, mut history) = editor_with("ab");
    let before = history.edits.len();
    editor.set_redraw(false);
    assert!(!editor.insert_text("", None, &mut history));
    assert_eq!(history.edits.len(), before);
    assert!(!editor.redraw());
    assert_eq!(editor.get_text(), "ab");
}

#[test]
fn typing_replaces_the_selection_as_one_history_entry() {
    let (mut editor, mut history) = editor_with("hello world");
    editor.set_selection(Some(Selection { anchor: Cursor::new(0, 0), active: Cursor::new(0, 5) }), &mut history);
    let before = history.edits.len();
    assert!(editor.insert_text("bye", None, &mut history));
    assert_eq!(editor.get_text(), "bye world");
    assert_eq!(editor.cursor(), Cursor::new(0, 3));
    assert_eq!(editor.selection(), None);
    assert_eq!(history.edits.len(), before + 1);
}

#[test]
fn selection_may_run_backwards_and_over_lines() {
    let (mut editor, mut history) = editor_with("ab\ncd\nef");
    editor.set_selection(Some(Selection { anchor: Cursor::new(2, 1), active: Cursor::new(0, 1) }), &mut history);
    assert_eq!(editor.cursor(), Cursor::new(0, 1));
    assert!(editor.insert_text("-", None, &mut history));
    assert_eq!(editor.get_text(), "a-f");
    assert_eq!(editor.cursor(), Cursor::new(0, 2));
}

#[test]
fn delete_backward_removes_the_character_before() {
    let (mut editor, mut history) = editor_with("aé●");
    assert!(editor.delete_backward(&mut history));
    assert_eq!(editor.get_text(), "aé");
    assert_eq!(editor.cursor(), Cursor::new(0, 3));
    assert!(editor.delete_backward(&mut history));
    assert_eq!(editor.get_text(), "a");
    assert_eq!(editor.cursor(), Cursor::new(0, 1));
    assert!(editor.delete_backward(&mut history));
    assert_eq!(editor.get_text(), "");
    assert!(!editor.delete_backward(&mut history));
}

#[test]
fn delete_backward_at_line_start_joins_lines() {
    let (mut editor, mut history) = editor_with("ab\ncd");
    editor.set_cursor(Cursor::new(1, 0), &mut history);
    assert!(editor.delete_backward(&mut history));
    assert_eq!(editor.get_text(), "abcd");
    assert_eq!(editor.cursor(), Cursor::new(0, 2));
    assert_eq!(editor.lines().len(), 1);
}

#[test]
fn delete_forward_removes_the_character_after() {
    let (mut editor, mut history) = editor_with("é●a");
    editor.set_cursor(Cursor::new(0, 0), &mut history);
    assert!(editor.delete_forward(&mut history));
    assert_eq!(editor.get_text(), "●a");
    assert_eq!(editor.cursor(), Cursor::new(0, 0));
}

#[test]
fn delete_forward_at_line_end_joins_lines() {
    let (mut editor, mut history) = editor_with("ab\ncd");
    editor.set_cursor(Cursor::new(0, 2), &mut history);
    assert!(editor.delete_forward(&mut history));
    assert_eq!(editor.get_text(), "abcd");
    assert_eq!(editor.cursor(), Cursor::new(0, 2));
    editor.set_cursor(Cursor::new(0, 4), &mut history);
    assert!(!editor.delete_forward(&mut history));
}

#[test]
fn delete_removes_the_selection() {
    let (mut editor, mut history) = editor_with("abcdef");
    editor.set_selection(Some(Selection { anchor: Cursor::new(0, 1), active: Cursor::new(0, 4) }), &mut history);
    assert!(editor.delete_backward(&mut history));
    assert_eq!(editor.get_text(), "aef");
    assert_eq!(editor.cursor(), Cursor::new(0, 1));
    editor.set_selection(Some(Selection { anchor: Cursor::new(0, 3), active: Cursor::new(0, 2) }), &mut history);
    assert!(editor.delete_forward(&mut history));
    assert_eq!(editor.get_text(), "ae");
    assert_eq!(editor.cursor(), Cursor::new(0, 2));
}

#[test]
fn delete_keeps_the_runs_around() {
    let mut editor = CosmicEditor::new(TextBuffer::new(Metrics::new(14.0, 20.0)), plain());
    let mut history = CosmicEditHistory::new();
    editor.insert_text("abc", Some(red()), &mut history);
    editor.insert_text("def", Some(plain()), &mut history);
    editor.set_selection(Some(Selection { anchor: Cursor::new(0, 2), active: Cursor::new(0, 4) }), &mut history);
    assert!(editor.delete_backward(&mut history));
    assert_eq!(runs(&editor), vec![line(&[("ab", red()), ("ef", plain())])]);
}

#[test]
fn move_left_and_right_step_over_whole_characters() {
    let (mut editor, mut history) = editor_with("aé●");
    editor.move_cursor(Direction::Left, false, &mut history);
    assert_eq!(editor.cursor(), Cursor::new(0, 3));
    editor.move_cursor(Direction::Left, false, &mut history);
    assert_eq!(editor.cursor(), Cursor::new(0, 1));
    editor.move_cursor(Direction::Left, false, &mut history);
    assert_eq!(editor.cursor(), Cursor::new(0, 0));
    editor.move_cursor(Direction::Left, false, &mut history);
    assert_eq!(editor.cursor(), Cursor::new(0, 0));
    editor.move_cursor(Direction::Right, false, &mut history);
    assert_eq!(editor.cursor(), Cursor::new(0, 1));
    editor.move_cursor(Direction::Right, false, &mut history);
    assert_eq!(editor.cursor(), Cursor::new(0, 3));
    editor.move_cursor(Direction::Right, false, &mut history);
    assert_eq!(editor.cursor(), Cursor::new(0, 6));
    editor.move_cursor(Direction::Right, false, &mut history);
    assert_eq!(editor.cursor(), Cursor::new(0, 6));
}

#[test]
fn move_left_and_right_cross_line_breaks() {
    let (mut editor, mut history) = editor_with("ab\ncd");
    editor.set_cursor(Cursor::new(1, 0), &mut history);
    editor.move_cursor(Direction::Left, false, &mut history);
    assert_eq!(editor.cursor(), Cursor::new(0, 2));
    editor.move_cursor(Direction::Right, false, &mut history);
    assert_eq!(editor.cursor(), Cursor::new(1, 0));
}

#[test]
fn move_up_and_down_land_on_a_character_boundary() {
    let (mut editor, mut history) = editor_with("abcd\n●●\nx");
    editor.set_cursor(Cursor::new(0, 4), &mut history);
    editor.move_cursor(Direction::Down, false, &mut history);
    assert_eq!(editor.cursor(), Cursor::new(1, 3));
    editor.move_cursor(Direction::Down, false, &mut history);
    assert_eq!(editor.cursor(), Cursor::new(2, 1));
    editor.move_cursor(Direction::Down, false, &mut history);
    assert_eq!(editor.cursor(), Cursor::new(2, 1));
    editor.move_cursor(Direction::Up, false, &mut history);
    assert_eq!(editor.cursor(), Cursor::new(1, 0));
    editor.move_cursor(Direction::Up, false, &mut history);
    assert_eq!(editor.cursor(), Cursor::new(0, 0));
    editor.move_cursor(Direction::Up, false, &mut history);
    assert_eq!(editor.cursor(), Cursor::new(0, 0));
}

#[test]
fn move_to_line_and_buffer_ends() {
    let (mut editor, mut history) = editor_with("ab\ncd●");
    editor.set_cursor(Cursor::new(0, 1), &mut history);
    editor.move_cursor(Direction::End, false, &mut history);
    assert_eq!(editor.cursor(), Cursor::new(0, 2));
    editor.move_cursor(Direction::Home, false, &mut history);
    assert_eq!(editor.cursor(), Cursor::new(0, 0));
    editor.move_cursor(Direction::BufferEnd, false, &mut history);
    assert_eq!(editor.cursor(), Cursor::new(1, 5));
    editor.move_cursor(Direction::BufferStart, false, &mut history);
    assert_eq!(editor.cursor(), Cursor::new(0, 0));
}

#[test]
fn move_with_extension_selects() {
    let (mut editor, mut history) = editor_with("abc");
    editor.set_cursor(Cursor::new(0, 1), &mut history);
    editor.move_cursor(Direction::Right, true, &mut history);
    editor.move_cursor(Direction::Right, true, &mut history);
    assert_eq!(
        editor.selection(),
        Some(Selection { anchor: Cursor::new(0, 1), active: Cursor::new(0, 3) })
    );
    editor.move_cursor(Direction::Left, false, &mut history);
    assert_eq!(editor.selection(), None);
    assert_eq!(editor.cursor(), Cursor::new(0, 2));
}

#[test]
fn move_marks_for_redraw_and_keeps_affinity() {
    let (mut editor, mut history) = editor_with("abc");
    editor.set_cursor(Cursor { line: 0, index: 1, affinity: Affinity::After }, &mut history);
    editor.set_redraw(false);
    editor.move_cursor(Direction::Right, false, &mut history);
    assert!(editor.redraw());
    assert_eq!(editor.cursor(), Cursor { line: 0, index: 2, affinity: Affinity::After });
}

#[test]
fn set_cursor_clamps_to_the_text() {
    let (mut editor, mut history) = editor_with("a●\nb");
    editor.set_cursor(Cursor::new(0, 2), &mut history);
    assert_eq!(editor.cursor(), Cursor::new(0, 1));
    editor.set_cursor(Cursor::new(0, 99), &mut history);
    assert_eq!(editor.cursor(), Cursor::new(0, 4));
    editor.set_cursor(Cursor::new(7, 99), &mut history);
    assert_eq!(editor.cursor(), Cursor::new(1, 1));
    editor.set_cursor(Cursor::new(1, 0), &mut history);
    assert_eq!(editor.cursor(), Cursor::new(1, 0));
}

#[test]
fn set_selection_clamps_both_ends() {
    let (mut editor, mut history) = editor_with("a●");
    editor.set_selection(Some(Selection { anchor: Cursor::new(0, 3), active: Cursor::new(5, 5) }), &mut history);
    assert_eq!(
        editor.selection(),
        Some(Selection { anchor: Cursor::new(0, 1), active: Cursor::new(0, 4) })
    );
    assert_eq!(editor.cursor(), Cursor::new(0, 4));
    editor.set_selection(None, &mut history);
    assert_eq!(editor.selection(), None);
    assert_eq!(editor.cursor(), Cursor::new(0, 4));
}

#[test]
fn select_all_spans_the_text() {
    let (mut editor, mut history) = editor_with("ab\ncd●");
    editor.set_cursor(Cursor::new(0, 1), &mut history);
    editor.select_all(&mut history);
    assert_eq!(
        editor.selection(),
        Some(Selection { anchor: Cursor::new(0, 0), active: Cursor::new(1, 5) })
    );
    assert_eq!(editor.cursor(), Cursor::new(1, 5));
}

#[test]
fn snapshot_holds_cursor_and_lines() {
    let (editor, _) = editor_with("ab\nc");
    let snap = editor.snapshot();
    assert_eq!(snap.cursor, Cursor::new(1, 1));
    assert_eq!(&snap.lines, editor.lines());
}

#[test]
fn cursor_moves_are_recorded_in_the_history() {
    let (mut editor, mut history) = editor_with("abc");
    let before = history.edits.len();
    editor.move_cursor(Direction::Left, false, &mut history);
    editor.set_cursor(Cursor::new(0, 0), &mut history);
    editor.select_all(&mut history);
    editor.set_selection(None, &mut history);
    assert_eq!(history.edits.len(), before + 4);
    assert!(editor.undo(&mut history));
    assert!(editor.undo(&mut history));
    assert!(editor.undo(&mut history));
    assert_eq!(editor.cursor(), Cursor::new(0, 2));
    assert!(editor.undo(&mut history));
    assert_eq!(editor.cursor(), Cursor::new(0, 3));
}

#[test]
fn undo_restores_text_and_cursor_before_the_edit() {
    let (mut editor, mut history) = editor_with("ab");
    assert!(editor.insert_text("cd", None, &mut history));
    assert_eq!(editor.get_text(), "abcd");
    assert!(editor.undo(&mut history));
    assert_eq!(editor.get_text(), "ab");
    assert_eq!(editor.cursor(), Cursor::new(0, 2));
    assert!(editor.undo(&mut history));
    assert_eq!(editor.get_text(), "");
    assert_eq!(editor.cursor(), Cursor::new(0, 0));
    assert!(!editor.undo(&mut history));
    assert_eq!(editor.get_text(), "");
}

#[test]
fn redo_applies_the_edit_again() {
    let (mut editor, mut history) = editor_with("ab");
    assert!(editor.insert_text("cd", None, &mut history));
    assert!(!editor.redo(&mut history));
    assert!(editor.undo(&mut history));
    assert!(editor.redo(&mut history));
    assert_eq!(editor.get_text(), "abcd");
    assert_eq!(editor.cursor(), Cursor::new(0, 4));
    assert!(!editor.redo(&mut history));
}

#[test]
fn undo_after_redo_restores_the_exact_state_before_the_edit() {
    let mut editor = CosmicEditor::new(TextBuffer::new(Metrics::new(14.0, 20.0)), plain());
    let mut history = CosmicEditHistory::new();
    editor.insert_text("ab", Some(red()), &mut history);
    let lines_before = runs(&editor);
    let cursor_before = editor.cursor();
    editor.insert_text("X\nY", None, &mut history);
    assert!(editor.undo(&mut history));
    assert!(editor.redo(&mut history));
    assert_eq!(editor.get_text(), "abX\nY");
    assert!(editor.undo(&mut history));
    assert_eq!(runs(&editor), lines_before);
    assert_eq!(editor.cursor(), cursor_before);
}

#[test]
fn an_edit_after_undo_drops_the_redo() {
    let (mut editor, mut history) = editor_with("ab");
    editor.insert_text("cd", None, &mut history);
    assert!(editor.undo(&mut history));
    editor.insert_text("X", None, &mut history);
    assert!(!editor.redo(&mut history));
    assert_eq!(editor.get_text(), "abX");
}

#[test]
fn undo_drops_the_selection_and_marks_for_redraw() {
    let (mut editor, mut history) = editor_with("ab");
    editor.select_all(&mut history);
    editor.set_redraw(false);
    assert!(editor.undo(&mut history));
    assert_eq!(editor.selection(), None);
    assert!(editor.redraw());
}

#[test]
fn set_text_in_one_style_cuts_at_line_breaks() {
    let mut editor = CosmicEditor::new(TextBuffer::new(Metrics::new(14.0, 20.0)), plain());
    assert!(editor.set_text(CosmicText::OneStyle(String::from("ab\n\ncd")), red()));
    assert_eq!(
        runs(&editor),
        vec![line(&[("ab", red())]), line(&[("", red())]), line(&[("cd", red())])]
    );
    assert_eq!(editor.get_text(), "ab\n\ncd");
    assert_eq!(editor.cursor(), Cursor::new(0, 0));
}

#[test]
fn set_text_of_an_empty_string_leaves_one_empty_line() {
    let (mut editor, _) = editor_with("abc");
    assert!(editor.set_text(CosmicText::OneStyle(String::new()), plain()));
    assert_eq!(editor.lines().len(), 1);
    assert!(editor.lines()[0].is_empty());
    assert_eq!(editor.cursor(), Cursor::new(0, 0));
}

#[test]
fn set_text_in_many_styles_takes_the_lines_as_they_are() {
    let mut editor = CosmicEditor::new(TextBuffer::new(Metrics::new(14.0, 20.0)), plain());
    let lines = vec![line(&[("ab", red()), ("cd", plain())]), line(&[])];
    assert!(editor.set_text(CosmicText::MultiStyle(lines.clone()), plain()));
    assert_eq!(runs(&editor), lines);
    assert!(editor.set_text(CosmicText::MultiStyle(vec![]), plain()));
    assert_eq!(runs(&editor), vec![line(&[])]);
}

#[test]
fn set_text_clamps_the_cursor_and_drops_the_selection() {
    let (mut editor, mut history) = editor_with("ab\ncdef");
    editor.select_all(&mut history);
    assert_eq!(editor.cursor(), Cursor::new(1, 4));
    editor.set_redraw(false);
    assert!(editor.set_text(CosmicText::OneStyle(String::from("x●")), plain()));
    assert_eq!(editor.cursor(), Cursor::new(0, 4));
    assert_eq!(editor.selection(), None);
    assert!(editor.redraw());
    assert!(editor.insert_text("y", None, &mut history));
    assert_eq!(editor.get_text(), "x●y");
}

#[test]
fn set_text_sets_the_attributes_that_text_inherits() {
    let mut editor = CosmicEditor::new(TextBuffer::new(Metrics::new(14.0, 20.0)), plain());
    let mut history = CosmicEditHistory::new();
    assert!(editor.set_text(CosmicText::MultiStyle(vec![]), red()));
    assert!(editor.insert_text("a", None, &mut history));
    assert_eq!(runs(&editor), vec![line(&[("a", red())])]);
}

#[test]
fn truncate_without_limits_changes_nothing() {
    let (mut editor, _) = editor_with("ab\ncd");
    editor.set_redraw(false);
    editor.truncate(0, 0);
    assert_eq!(editor.get_text(), "ab\ncd");
    assert!(!editor.redraw());
}

#[test]
fn truncate_drops_from_the_end_and_clamps_the_cursor() {
    let (mut editor, _) = editor_with("abc\ndef");
    assert_eq!(editor.cursor(), Cursor::new(1, 3));
    editor.truncate(7, 0);
    assert_eq!(editor.get_text(), "abc\ndef");
    assert_eq!(editor.cursor(), Cursor::new(1, 3));
    editor.truncate(6, 0);
    assert_eq!(editor.get_text(), "abc\nde");
    assert_eq!(editor.cursor(), Cursor::new(1, 2));
    editor.truncate(0, 2);
    assert_eq!(editor.get_text(), "abc\nde");
    editor.truncate(0, 1);
    assert_eq!(editor.get_text(), "abc\n");
    assert_eq!(editor.lines().len(), 2);
    assert_eq!(editor.cursor(), Cursor::new(1, 0));
    assert!(editor.redraw());
}

#[test]
fn truncate_one_style_to_one_char_keeps_the_first() {
    let (mut editor, _) = editor_with("AB");
    editor.truncate(1, 0);
    assert_eq!(editor.get_text(), "A");
    assert_eq!(runs(&editor), vec![line(&[("A", plain())])]);
    assert_eq!(editor.cursor(), Cursor::new(0, 1));
    let (mut editor, _) = editor_with("abc");
    editor.truncate(1, 0);
    assert_eq!(editor.get_text(), "a");
}

#[test]
fn typing_at_the_end_then_truncating_clamps_after_the_edit() {
    let (mut editor, mut history) = editor_with("A");
    assert!(editor.insert_text("z", None, &mut history));
    editor.truncate(2, 0);
    assert_eq!(editor.get_text(), "Az");
    // at the limit the typed character is the one that is dropped
    assert!(editor.insert_text("y", None, &mut history));
    editor.truncate(2, 0);
    assert_eq!(editor.get_text(), "Az");
    assert_eq!(editor.cursor(), Cursor::new(0, 2));
}

#[test]
fn truncate_counts_characters_not_bytes() {
    let (mut editor, _) = editor_with("●●●");
    editor.truncate(2, 0);
    assert_eq!(editor.get_text(), "●●");
    assert_eq!(editor.cursor(), Cursor::new(0, 6));
}

#[test]
fn truncate_of_one_style_sets_the_text_in_the_editors_attributes() {
    let mut editor = CosmicEditor::new(TextBuffer::new(Metrics::new(14.0, 20.0)), plain());
    assert!(editor.set_text(CosmicText::OneStyle(String::from("ab\ncd")), red()));
    assert_eq!(editor.buffer().form(), TextForm::OneStyle);
    editor.truncate(4, 0);
    assert_eq!(runs(&editor), vec![line(&[("ab", red())]), line(&[("c", red())])]);
    assert_eq!(editor.buffer().form(), TextForm::OneStyle);
}

#[test]
fn truncate_of_an_empty_text_leaves_one_empty_line() {
    let mut editor = CosmicEditor::new(TextBuffer::new(Metrics::new(14.0, 20.0)), plain());
    editor.truncate(3, 3);
    assert_eq!(editor.lines().len(), 1);
    assert!(editor.lines()[0].is_empty());
    assert_eq!(editor.cursor(), Cursor::new(0, 0));
}

#[test]
fn truncate_drops_a_selection_whose_line_is_gone() {
    let (mut editor, mut history) = editor_with("ab\ncd");
    editor.set_selection(
        Some(Selection { anchor: Cursor::new(0, 1), active: Cursor::new(1, 1) }),
        &mut history,
    );
    editor.truncate(2, 0);
    assert_eq!(editor.get_text(), "ab");
    assert_eq!(editor.selection(), None);
    assert_eq!(editor.cursor(), Cursor::new(0, 1));
}

#[test]
fn truncate_keeps_a_selection_that_still_stands() {
    let (mut editor, mut history) = editor_with("abcdef");
    editor.set_selection(
        Some(Selection { anchor: Cursor::new(0, 1), active: Cursor::new(0, 6) }),
        &mut history,
    );
    editor.truncate(4, 0);
    assert_eq!(editor.get_text(), "abcd");
    assert_eq!(
        editor.selection(),
        Some(Selection { anchor: Cursor::new(0, 1), active: Cursor::new(0, 4) })
    );
}

fn styled_editor(lines: Vec<Vec<(String, AttrsOwned)>>) -> CosmicEditor {
    let mut editor = CosmicEditor::new(TextBuffer::new(Metrics::new(14.0, 20.0)), plain());
    assert!(editor.set_text(CosmicText::MultiStyle(lines), plain()));
    assert_eq!(editor.buffer().form(), TextForm::MultiStyle);
    editor
}

#[test]
fn truncate_of_styled_text_walks_lines_and_runs() {
    let mut editor = styled_editor(vec![line(&[("abc", red())]), line(&[("def", plain())])]);
    editor.truncate(7, 0);
    assert_eq!(runs(&editor), vec![line(&[("abc", red())]), line(&[("de", plain())])]);
    editor.truncate(0, 2);
    assert_eq!(runs(&editor), vec![line(&[("abc", red())])]);
    let mut editor = styled_editor(vec![line(&[("ab", red()), ("cd", plain())])]);
    editor.truncate(4, 0);
    assert_eq!(runs(&editor), vec![line(&[("ab", red()), ("c", plain())])]);
}

#[test]
fn truncate_of_styled_text_to_nothing_leaves_one_empty_line() {
    let mut editor = styled_editor(vec![line(&[("abc", red())])]);
    editor.truncate(1, 0);
    assert_eq!(editor.lines().len(), 1);
    assert!(editor.lines()[0].is_empty());
    assert_eq!(editor.cursor(), Cursor::new(0, 0));
}

#[test]
fn text_with_attributes_of_its_own_makes_the_text_styled() {
    let (mut editor, mut history) = editor_with("ab");
    assert_eq!(editor.buffer().form(), TextForm::OneStyle);
    assert!(editor.delete_backward(&mut history));
    assert_eq!(editor.buffer().form(), TextForm::OneStyle);
    assert!(editor.insert_text("c", Some(red()), &mut history));
    assert_eq!(editor.buffer().form(), TextForm::MultiStyle);
    assert!(editor.insert_text("d", None, &mut history));
    assert_eq!(editor.buffer().form(), TextForm::MultiStyle);
    assert!(editor.set_text(CosmicText::OneStyle(String::from("x")), plain()));
    assert_eq!(editor.buffer().form(), TextForm::OneStyle);
}

#[test]
fn editor_and_history_from_its_own_functions_stand() {
    let (mut editor, mut history) = editor_with("ab\n●");
    assert!(editor.is_wf());
    assert!(history_stands(&history));
    editor.select_all(&mut history);
    editor.truncate(3, 0);
    assert!(editor.undo(&mut history));
    assert!(editor.is_wf());
    assert!(history_stands(&history));
}

#[test]
fn history_with_a_snapshot_that_cannot_be_restored_does_not_stand() {
    let (editor, mut history) = editor_with("a●");
    let mut bad = editor.snapshot();
    bad.cursor = Cursor::new(0, 2);
    history.edits.push_back(bad);
    assert!(!history_stands(&history));
    let mut history = CosmicEditHistory::new();
    history.current_edit = 1;
    assert!(!history_stands(&history));
    let mut history = CosmicEditHistory::new();
    let mut empty = editor.snapshot();
    empty.lines.clear();
    history.edits.push_back(empty);
    assert!(!history_stands(&history));
}

#[test]
fn cursor_and_lines_tests() {
    let (editor, _) = editor_with("a●\nb");
    let lines = editor.lines();
    assert!(lines_stand(lines));
    assert!(!lines_stand(&vec![]));
    assert!(cursor_stands(lines, Cursor::new(0, 0)));
    assert!(cursor_stands(lines, Cursor::new(0, 1)));
    assert!(!cursor_stands(lines, Cursor::new(0, 2)));
    assert!(cursor_stands(lines, Cursor::new(0, 4)));
    assert!(!cursor_stands(lines, Cursor::new(0, 5)));
    assert!(cursor_stands(lines, Cursor::new(1, 1)));
    assert!(!cursor_stands(lines, Cursor::new(2, 0)));
}

#[test]
fn blinking_toggles_the_cursor() {
    let mut editor = CosmicEditor::new(TextBuffer::new(Metrics::new(14.0, 20.0)), plain());
    editor.set_redraw(false);
    editor.blink_cursor();
    assert!(!editor.cursor_visible());
    assert!(editor.redraw());
    editor.blink_cursor();
    assert!(editor.cursor_visible());
}

#[test]
fn input_holds_the_cursor_visible() {
    let mut editor = CosmicEditor::new(TextBuffer::new(Metrics::new(14.0, 20.0)), plain());
    editor.blink_cursor();
    editor.set_redraw(false);
    assert!(!editor.freeze_cursor_blink(false, false));
    assert!(!editor.cursor_visible());
    assert!(!editor.redraw());
    assert!(editor.freeze_cursor_blink(true, false));
    assert!(editor.cursor_visible());
    assert!(editor.redraw());
    editor.blink_cursor();
    assert!(editor.freeze_cursor_blink(false, true));
    assert!(editor.cursor_visible());
}

#[test]
fn editor_wraps_its_buffer() {
    let mut buffer = TextBuffer::new(Metrics::new(14.0, 20.0));
    assert!(buffer.set_text(CosmicText::OneStyle(String::from("ab\ncd")), &plain()));
    let mut editor = CosmicEditor::new(buffer, plain());
    assert_eq!(editor.get_text(), "ab\ncd");
    assert_eq!(editor.cursor(), Cursor::new(0, 0));
    assert_eq!(editor.buffer().get_text(), "ab\ncd");
    editor.set_redraw(false);
    editor.set_size(Extent::Bounded(90), Extent::Unbounded);
    assert!(editor.redraw());
    assert_eq!(editor.buffer().size(), (Extent::Bounded(90), Extent::Unbounded));
    editor.set_redraw(false);
    editor.set_metrics(Metrics::new(7.0, 9.0));
    assert!(editor.redraw());
    assert_eq!(editor.buffer().metrics(), Metrics::new(7.0, 9.0));
    assert!(editor.set_initial_scale(Metrics::new(14.0, 18.0)));
    assert!(!editor.set_initial_scale(Metrics::new(28.0, 36.0)));
    assert_eq!(editor.buffer().metrics(), Metrics::new(14.0, 18.0));
}

#[test]
fn layout_passes_work_on_the_editors_shaping() {
    let (mut editor, mut history) = editor_with("ab");
    editor.set_redraw(false);
    cosmic_buffer_size(
        editor.shaping_mut(),
        CosmicMode::AutoHeight,
        CosmicWidgetSize { width: 100, height: 50 },
        CosmicTextPosition::Left { padding: 10 },
    );
    assert!(editor.redraw());
    assert_eq!(editor.buffer().size(), (Extent::Bounded(90), Extent::Unbounded));
    assert_eq!(editor.get_text(), "ab");
    assert_eq!(editor.cursor(), Cursor::new(0, 2));
    assert!(editor.insert_text("c", None, &mut history));
    assert_eq!(editor.get_text(), "abc");
}
