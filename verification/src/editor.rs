use crate::buffer::all_lines_fit;
use crate::buffer::joined;
use crate::buffer::lines_of;
use crate::buffer::lines_wf;
use crate::buffer::shaping_of;
use crate::buffer::Shaping;
use crate::buffer::BufferView;
use crate::buffer::TextBuffer;
use crate::cursor::byte_len;
use crate::cursor::byte_length;
use crate::cursor::byte_offset;
use crate::edit::all_fit;
use crate::edit::lemma_pieces_nonempty;
use crate::edit::pieces;
use crate::edit::put_lines;
use crate::edit::replaced;
use crate::edit::splice;
use crate::edit::spliced;
use crate::edit::split_text;
use crate::layout::Extent;
use crate::history::can_redo;
use crate::history::can_undo;
use crate::history::history_wf;
use crate::history::lemma_undo_after_record;
use crate::history::present;
use crate::history::recorded;
use crate::history::redone;
use crate::history::undone;
use crate::history::with_room;
use crate::history::HistoryView;
use crate::history::MAX_EDITS;
use crate::history::CosmicEditHistory;
use crate::history::EditHistoryItem;
use crate::history::Snapshot;
use crate::line::lemma_byte_len_concat;
use crate::line::lemma_line_split_text;
use crate::line::lemma_line_text_concat;
use crate::line::lemma_line_text_push;
use crate::line::line_prefix;
use crate::line::line_suffix;
use crate::line::split_line;
use crate::line::lemma_trimmed_lines_fit;
use crate::flat::end_place;
use crate::flat::lemma_insert_at_end;
use crate::flat::lemma_one_style_lines;
use crate::text::clone_lines;
use crate::text::first_chars;
use crate::text::form_of;
use crate::text::lemma_append_then_truncate;
use crate::text::trim_one_style;
use crate::text::trimmed_one_style;
use crate::text::TextForm;
use crate::text::trim_lines;
use crate::text::trimmed_multi_style;
use crate::text::CosmicText;
use crate::text::TextView;
use crate::text::RunView;
use crate::cursor::char_width;
use crate::cursor::cursor_valid;
use crate::cursor::floor_boundary;
use crate::cursor::floor_position;
use crate::cursor::lemma_byte_offset_ends;
use crate::cursor::lemma_byte_offset_monotone;
use crate::cursor::lemma_byte_offset_step;
use crate::cursor::lemma_floor_position;
use crate::cursor::Cursor;
use crate::cursor::Selection;
use crate::line::line_bytes;
use crate::line::line_chars;
use crate::line::line_fits;
use crate::text::line_text;
use crate::text::line_view;
use crate::text::lines_view;
use crate::text::Line;
use crate::text::LineView;
use cosmic_text::AttrsOwned;
use cosmic_text::Metrics;
use vstd::prelude::*;

verus! {

/// The time between two blinks of the cursor, in milliseconds.
pub const CURSOR_BLINK_MILLIS: u64 = 530;

/// Where a cursor moves.
#[derive(Clone, Copy, Debug, PartialEq, Eq, Structural)]
pub enum Direction {
    /// One character back, or to the end of the line before.
    Left,
    /// One character on, or to the start of the next line.
    Right,
    /// To the line before, at or before the same byte index.
    Up,
    /// To the next line, at or before the same byte index.
    Down,
    /// To the start of the line.
    Home,
    /// To the end of the line.
    End,
    /// To the start of the text.
    BufferStart,
    /// To the end of the text.
    BufferEnd,
}

/// An editable text: a buffer of lines of styled runs, with a cursor and a
/// selection.
pub struct CosmicEditor {
    buffer: TextBuffer,
    cursor: Cursor,
    selection: Option<Selection>,
    default_attrs: AttrsOwned,
    cursor_visible: bool,
}

/// What an editor holds, as plain values.
pub struct EditorView {
    pub lines: Seq<LineView>,
    /// Whether the text was set in one style, and has taken no styled text
    /// since, or is held as styled runs.
    pub form: TextForm,
    pub cursor: Cursor,
    pub selection: Option<Selection>,
    pub redraw: bool,
    pub default_attrs: AttrsOwned,
    /// Whether the cursor is drawn at the moment: it blinks.
    pub cursor_visible: bool,
    pub metrics: Metrics,
    pub width: Extent,
    pub height: Extent,
    pub scale_resolved: bool,
}

/// What the buffer of an editor holds.
pub open spec fn buffer_of(v: EditorView) -> BufferView {
    BufferView {
        lines: v.lines,
        form: v.form,
        metrics: v.metrics,
        width: v.width,
        height: v.height,
        redraw: v.redraw,
        scale_resolved: v.scale_resolved,
    }
}

/// An editor is well formed where its lines are, its cursor stands on a
/// character boundary of one of them, and so does the anchor of its
/// selection, whose active end is the cursor.
pub open spec fn editor_wf(v: EditorView) -> bool {
    &&& lines_wf(v.lines)
    &&& cursor_valid(v.lines, v.cursor)
    &&& v.selection matches Some(s) ==> cursor_valid(v.lines, s.anchor) && s.active == v.cursor
}

/// The cursor at a line and byte index, with the affinity of `c`.
pub open spec fn at(c: Cursor, line: int, index: nat) -> Cursor {
    Cursor { line: line as usize, index: index as usize, affinity: c.affinity }
}

/// A cursor brought onto the text: to the last line where its line lies
/// beyond, and to the nearest character boundary at or before its index.
pub open spec fn clamped(lines: Seq<LineView>, c: Cursor) -> Cursor {
    let line = if c.line < lines.len() {
        c.line as int
    } else {
        lines.len() - 1
    };
    let text = line_text(lines[line]);
    at(c, line, byte_offset(text, floor_position(text, c.index as nat)))
}

/// Where a cursor stands after a move.
pub open spec fn moved(lines: Seq<LineView>, c: Cursor, d: Direction) -> Cursor {
    let text = line_text(lines[c.line as int]);
    let pos = floor_position(text, c.index as nat);
    match d {
        Direction::Left => if pos > 0 {
            at(c, c.line as int, byte_offset(text, pos - 1))
        } else if c.line > 0 {
            at(c, c.line - 1, byte_len(line_text(lines[c.line - 1])))
        } else {
            c
        },
        Direction::Right => if pos < text.len() {
            at(c, c.line as int, byte_offset(text, pos + 1))
        } else if c.line + 1 < lines.len() {
            at(c, c.line + 1, 0)
        } else {
            c
        },
        Direction::Up => if c.line > 0 {
            clamped(lines, at(c, c.line - 1, c.index as nat))
        } else {
            c
        },
        Direction::Down => if c.line + 1 < lines.len() {
            clamped(lines, at(c, c.line + 1, c.index as nat))
        } else {
            c
        },
        Direction::Home => at(c, c.line as int, 0),
        Direction::End => at(c, c.line as int, byte_len(text)),
        Direction::BufferStart => at(c, 0, 0),
        Direction::BufferEnd => at(c, lines.len() - 1, byte_len(line_text(lines[lines.len() - 1]))),
    }
}

/// The selection after a move: from where it began to the cursor where the
/// move extends it, none where it does not.
pub open spec fn selection_after_move(
    selection: Option<Selection>,
    from: Cursor,
    to: Cursor,
    extend: bool,
) -> Option<Selection> {
    if extend {
        Some(
            Selection {
                anchor: match selection {
                    Some(s) => s.anchor,
                    None => from,
                },
                active: to,
            },
        )
    } else {
        None
    }
}

/// A clamped cursor stands on a character boundary of the text.
pub proof fn lemma_clamped_is_valid(lines: Seq<LineView>, c: Cursor)
    requires
        lines_wf(lines),
        lines.len() <= usize::MAX,
    ensures
        cursor_valid(lines, clamped(lines, c)),
        cursor_valid(lines, c) ==> clamped(lines, c) == c,
{
    let line = if c.line < lines.len() {
        c.line as int
    } else {
        lines.len() - 1
    };
    let text = line_text(lines[line]);
    lemma_floor_position(text, c.index as nat);
    let pos = floor_position(text, c.index as nat);
    lemma_byte_offset_monotone(text, pos, text.len() as int);
    lemma_byte_offset_ends(text);
    assert(line_fits(lines[line]));
}

/// Every cursor that a move produces stands on a character boundary within
/// a line of the text.
pub proof fn lemma_moved_is_valid(lines: Seq<LineView>, c: Cursor, d: Direction)
    requires
        lines_wf(lines),
        lines.len() <= usize::MAX,
        cursor_valid(lines, c),
    ensures
        cursor_valid(lines, moved(lines, c, d)),
{
    let text = line_text(lines[c.line as int]);
    lemma_floor_position(text, c.index as nat);
    let pos = floor_position(text, c.index as nat);
    lemma_byte_offset_ends(text);
    assert(line_fits(lines[c.line as int]));
    match d {
        Direction::Left => {
            if pos > 0 {
                lemma_byte_offset_monotone(text, pos - 1, text.len() as int);
            } else if c.line > 0 {
                lemma_byte_offset_ends(line_text(lines[c.line - 1]));
                assert(line_fits(lines[c.line - 1]));
            }
        },
        Direction::Right => {
            if pos < text.len() {
                lemma_byte_offset_monotone(text, pos + 1, text.len() as int);
            } else if c.line + 1 < lines.len() {
                lemma_byte_offset_ends(line_text(lines[c.line + 1]));
            }
        },
        Direction::Up => {
            if c.line > 0 {
                lemma_clamped_is_valid(lines, at(c, c.line - 1, c.index as nat));
            }
        },
        Direction::Down => {
            if c.line + 1 < lines.len() {
                lemma_clamped_is_valid(lines, at(c, c.line + 1, c.index as nat));
            }
        },
        Direction::Home => {},
        Direction::End => {},
        Direction::BufferStart => {
            lemma_byte_offset_ends(line_text(lines[0]));
        },
        Direction::BufferEnd => {
            lemma_byte_offset_ends(line_text(lines[lines.len() - 1]));
            assert(line_fits(lines[lines.len() - 1]));
        },
    }
}

/// The place of a cursor in the text: its line, and the position in that
/// line of the character that it stands before.
pub open spec fn place(lines: Seq<LineView>, c: Cursor) -> (int, int) {
    (c.line as int, floor_position(line_text(lines[c.line as int]), c.index as nat))
}

/// Whether a place lies in the text.
pub open spec fn place_in(lines: Seq<LineView>, p: (int, int)) -> bool {
    0 <= p.0 < lines.len() && 0 <= p.1 <= line_text(lines[p.0]).len()
}

/// Whether one place lies at or before another.
pub open spec fn place_le(a: (int, int), b: (int, int)) -> bool {
    a.0 < b.0 || (a.0 == b.0 && a.1 <= b.1)
}

/// Where the cursor stands after text was put in at `from`: behind the new
/// text.
pub open spec fn cursor_after(
    lines: Seq<LineView>,
    from: (int, int),
    s: Seq<char>,
    like: Cursor,
) -> Cursor {
    let p = pieces(s);
    if p.len() == 1 {
        at(like, from.0, byte_len(line_text(lines[from.0]).take(from.1) + p[0]))
    } else {
        at(like, from.0 + p.len() - 1, byte_len(p.last()))
    }
}

/// Whether the lines that a replacement makes can all be addressed by byte
/// indices.
pub open spec fn replace_fits(
    lines: Seq<LineView>,
    from: (int, int),
    to: (int, int),
    s: Seq<char>,
    attrs: AttrsOwned,
) -> bool {
    let m = spliced(
        line_prefix(lines[from.0], from.1),
        s,
        attrs,
        line_suffix(lines[to.0], to.1),
    );
    forall|i: int| 0 <= i < m.len() ==> line_fits(#[trigger] m[i])
}

/// The editor after the text between two places was replaced: the cursor
/// stands behind the new text, and nothing is selected.
pub open spec fn after_replace(
    v: EditorView,
    from: (int, int),
    to: (int, int),
    s: Seq<char>,
    attrs: AttrsOwned,
) -> EditorView {
    EditorView {
        lines: replaced(v.lines, from, to, s, attrs),
        cursor: cursor_after(v.lines, from, s, v.cursor),
        selection: None,
        redraw: true,
        ..v
    }
}

/// The range that an edit replaces: the selection, from its first end to
/// its last, or the cursor's place alone where nothing is selected.
pub open spec fn edit_range(v: EditorView) -> ((int, int), (int, int)) {
    let c = place(v.lines, v.cursor);
    match v.selection {
        Some(s) => {
            let a = place(v.lines, s.anchor);
            if place_le(a, c) {
                (a, c)
            } else {
                (c, a)
            }
        },
        None => (c, c),
    }
}

/// The range that deleting backward removes: the selection where there is
/// one, else the character before the cursor, else the break between the
/// cursor's line and the line before; nothing at the start of the text.
pub open spec fn backward_range(v: EditorView) -> ((int, int), (int, int)) {
    let (from, to) = edit_range(v);
    if from != to {
        (from, to)
    } else if to.1 > 0 {
        ((to.0, to.1 - 1), to)
    } else if to.0 > 0 {
        ((to.0 - 1, line_text(v.lines[to.0 - 1]).len() as int), to)
    } else {
        (to, to)
    }
}

/// The range that deleting forward removes: the selection where there is
/// one, else the character after the cursor, else the break between the
/// cursor's line and the next; nothing at the end of the text.
pub open spec fn forward_range(v: EditorView) -> ((int, int), (int, int)) {
    let (from, to) = edit_range(v);
    if from != to {
        (from, to)
    } else if from.1 < line_text(v.lines[from.0]).len() {
        (from, (from.0, from.1 + 1))
    } else if from.0 + 1 < v.lines.len() {
        (from, (from.0 + 1, 0))
    } else {
        (from, from)
    }
}

/// The attributes that text put in between two places takes where it
/// brings none: those of the run before it, else those of the run after
/// it, else the editor's own.
pub open spec fn inherited_attrs(v: EditorView, from: (int, int), to: (int, int)) -> AttrsOwned {
    let left = line_prefix(v.lines[from.0], from.1);
    let right = line_suffix(v.lines[to.0], to.1);
    if left.len() > 0 {
        left.last().1
    } else if right.len() > 0 {
        right[0].1
    } else {
        v.default_attrs
    }
}

/// The attributes in which text is put in.
pub open spec fn insert_attrs(v: EditorView, attrs: Option<AttrsOwned>) -> AttrsOwned {
    match attrs {
        Some(a) => a,
        None => inherited_attrs(v, edit_range(v).0, edit_range(v).1),
    }
}

/// The editor after its text was set: the text keeps its form, the cursor
/// is brought onto the new text, and nothing is selected.
pub open spec fn after_set_text(v: EditorView, text: TextView, attrs: AttrsOwned) -> EditorView {
    let lines = lines_of(text, attrs);
    EditorView {
        lines,
        form: form_of(text),
        cursor: clamped(lines, v.cursor),
        selection: None,
        redraw: true,
        default_attrs: attrs,
        ..v
    }
}

/// The editor after text was put in: text that brings attributes of its own
/// makes the text a styled one; else the text keeps its form.
pub open spec fn after_insert(v: EditorView, s: Seq<char>, attrs: Option<AttrsOwned>) -> EditorView {
    EditorView {
        form: if attrs is Some {
            TextForm::MultiStyle
        } else {
            v.form
        },
        ..after_replace(v, edit_range(v).0, edit_range(v).1, s, insert_attrs(v, attrs))
    }
}

/// The lines of an editor after truncation. A text in one style is
/// truncated as the one string that its lines make, and set anew in the
/// editor's attributes. A styled text is truncated line by line and run by
/// run, with one empty line in place of none.
pub open spec fn limited(v: EditorView, max_chars: nat, max_lines: nat) -> Seq<LineView> {
    match v.form {
        TextForm::OneStyle => lines_of(
            TextView::OneStyle(trimmed_one_style(joined(v.lines), max_chars, max_lines)),
            v.default_attrs,
        ),
        TextForm::MultiStyle => {
            let kept = trimmed_multi_style(v.lines, max_chars, max_lines);
            if kept.len() == 0 {
                seq![Seq::<RunView>::empty()]
            } else {
                kept
            }
        },
    }
}

/// The editor after its text was truncated: cursor and selection are
/// brought onto what is left, and a selection with an end in a line that is
/// gone is dropped. Without a limit nothing changes.
pub open spec fn after_truncate(v: EditorView, max_chars: nat, max_lines: nat) -> EditorView {
    if max_chars == 0 && max_lines == 0 {
        v
    } else {
        let lines = limited(v, max_chars, max_lines);
        EditorView {
            lines,
            cursor: clamped(lines, v.cursor),
            selection: match v.selection {
                Some(s) => if s.anchor.line < lines.len() && v.cursor.line < lines.len() {
                    Some(
                        Selection {
                            anchor: clamped(lines, s.anchor),
                            active: clamped(lines, v.cursor),
                        },
                    )
                } else {
                    None
                },
                None => None,
            },
            redraw: true,
            ..v
        }
    }
}

/// Truncation clamps after the edit: a character typed at the end of a text
/// in one style, followed by truncation of the editor to `max_chars`
/// characters, leaves the text that was there before, cut to one character
/// less, with the character appended. This holds where the text before the
/// edit is shorter than the limit, or already has that character in the
/// limit's last place.
pub proof fn lemma_type_at_end_then_truncate(v: EditorView, c: char, max_chars: nat)
    requires
        v.lines.len() >= 1,
        v.form == TextForm::OneStyle,
        v.selection is None,
        place(v.lines, v.cursor) == end_place(v.lines),
        max_chars >= 1,
        joined(v.lines).len() < max_chars || joined(v.lines)[max_chars - 1] == c,
    ensures
        joined(after_truncate(after_insert(v, seq![c], None), max_chars, 0).lines) == first_chars(
            joined(v.lines),
            (max_chars - 1) as nat,
        ).push(c),
{
    let typed = after_insert(v, seq![c], None);
    lemma_insert_at_end(v.lines, seq![c], insert_attrs(v, None));
    assert(joined(v.lines) + seq![c] =~= joined(v.lines).push(c));
    lemma_append_then_truncate(joined(v.lines), c, max_chars);
    lemma_one_style_lines(trimmed_one_style(joined(typed.lines), max_chars, 0), typed.default_attrs);
}

/// Whether an editor stands where its history says: its cursor and lines
/// are those of the snapshot at the history's index, where the index names
/// a snapshot. Undo and redo leave the editor so; an edit records the state
/// and puts the index behind all snapshots.
pub open spec fn in_step(v: EditorView, h: HistoryView) -> bool {
    h.current < h.edits.len() ==> snapshot_of(v) == present(h)
}

/// Undo after redo restores the exact cursor and lines that the editor held
/// before the redo, and leaves the history as it was.
pub proof fn lemma_editor_undo_after_redo(v: EditorView, h: HistoryView)
    requires
        history_wf(h),
        can_redo(h),
        in_step(v, h),
    ensures
        ({
            let forth = restored(v, present(redone(h)));
            let h_back = undone(redone(h), snapshot_of(forth));
            let back = restored(forth, present(h_back));
            &&& can_undo(redone(h))
            &&& h_back == h
            &&& snapshot_of(back) == snapshot_of(v)
            &&& in_step(back, h_back)
        }),
{
}

/// The editor with a snapshot restored into it: nothing is selected.
pub open spec fn restored(v: EditorView, s: Snapshot) -> EditorView {
    EditorView { lines: s.lines, cursor: s.cursor, selection: None, redraw: true, ..v }
}

/// The snapshot of an editor's state.
pub open spec fn snapshot_of(v: EditorView) -> Snapshot {
    Snapshot { cursor: v.cursor, lines: v.lines }
}

/// Whether a snapshot can be restored into an editor.
pub open spec fn snapshot_wf(s: Snapshot) -> bool {
    lines_wf(s.lines) && cursor_valid(s.lines, s.cursor)
}

/// A history can serve an editor where it is well formed and each of its
/// snapshots can be restored.
pub open spec fn history_valid(h: HistoryView) -> bool {
    &&& history_wf(h)
    &&& forall|i: int| 0 <= i < h.edits.len() ==> snapshot_wf(#[trigger] h.edits[i])
}

/// Recording a snapshot that can be restored keeps the history fit to
/// serve an editor, and so do undo and redo.
pub proof fn lemma_history_stays_valid(h: HistoryView, item: Snapshot)
    requires
        history_valid(h),
        snapshot_wf(item),
    ensures
        history_valid(recorded(h, item)),
        can_undo(h) ==> history_valid(undone(h, item)),
        can_redo(h) ==> history_valid(redone(h)),
{
    lemma_undo_after_record(h, item, item);
    let r = recorded(h, item);
    assert forall|i: int| 0 <= i < r.edits.len() implies snapshot_wf(#[trigger] r.edits[i]) by {
        let kept = with_room(h.edits.take(h.current as int));
        if i < kept.len() {
            if h.edits.take(h.current as int).len() >= MAX_EDITS {
                assert(r.edits[i] == h.edits[i + 1]);
            } else {
                assert(r.edits[i] == h.edits[i]);
            }
        }
    }
}

/// A replacement that fits leaves lines that can stand in an editor, and
/// the cursor on a character boundary of them.
pub proof fn lemma_replace_keeps_wf(
    lines: Seq<LineView>,
    from: (int, int),
    to: (int, int),
    s: Seq<char>,
    attrs: AttrsOwned,
    like: Cursor,
)
    requires
        lines_wf(lines),
        place_in(lines, from),
        place_in(lines, to),
        place_le(from, to),
        replace_fits(lines, from, to, s, attrs),
        replaced(lines, from, to, s, attrs).len() <= usize::MAX,
    ensures
        lines_wf(replaced(lines, from, to, s, attrs)),
        cursor_valid(replaced(lines, from, to, s, attrs), cursor_after(lines, from, s, like)),
        line_text(lines[from.0]).take(from.1) == line_text(line_prefix(lines[from.0], from.1)),
        pieces(s).len() >= 1,
        pieces(s).len() == 1 ==> byte_len(line_text(lines[from.0]).take(from.1)) + byte_len(
            pieces(s)[0],
        ) == byte_len(line_text(lines[from.0]).take(from.1) + pieces(s)[0]) <= usize::MAX,
        pieces(s).len() > 1 ==> byte_len(pieces(s).last()) <= usize::MAX && from.0 + pieces(
            s,
        ).len() <= replaced(lines, from, to, s, attrs).len(),
{
    let left = line_prefix(lines[from.0], from.1);
    lemma_byte_len_concat(line_text(lines[from.0]).take(from.1), pieces(s)[0]);
    let right = line_suffix(lines[to.0], to.1);
    let m = spliced(left, s, attrs, right);
    let new = replaced(lines, from, to, s, attrs);
    let p = pieces(s);
    lemma_pieces_nonempty(s);
    lemma_line_split_text(lines[from.0], from.1);
    let left_text = line_text(lines[from.0]).take(from.1);
    assert forall|i: int| 0 <= i < new.len() implies line_fits(#[trigger] new[i]) by {
        if i < from.0 {
            assert(new[i] == lines[i]);
        } else if i < from.0 + m.len() {
            assert(new[i] == m[i - from.0]);
        } else {
            assert(new[i] == lines[i - from.0 - m.len() + to.0 + 1]);
        }
    }
    let c = cursor_after(lines, from, s, like);
    if p.len() == 1 {
        let line = m[0];
        assert(new[from.0] == line);
        let inner = left_text + p[0];
        if s.len() == 0 {
            assert(p[0] =~= Seq::<char>::empty());
            lemma_line_text_concat(left, right);
            assert(line_text(line) =~= inner + line_text(right));
        } else {
            lemma_line_text_push(left, (p[0], attrs));
            lemma_line_text_concat(left.push((p[0], attrs)), right);
            assert(line_text(line) =~= inner + line_text(right));
        }
        lemma_byte_len_concat(inner, line_text(right));
        assert(line_text(line).take(inner.len() as int) =~= inner);
        assert(byte_offset(line_text(line), inner.len() as int) == byte_len(inner));
        assert(line_fits(line));
    } else {
        assert(s.len() > 0);
        assert(m.len() == p.len());
        let line = m[p.len() - 1];
        assert(new[from.0 + p.len() - 1] == line);
        let only: LineView = seq![(p.last(), attrs)];
        assert(line == only + right);
        assert(only =~= Seq::<RunView>::empty().push((p.last(), attrs)));
        lemma_line_text_push(Seq::<RunView>::empty(), (p.last(), attrs));
        assert(line_text(only) =~= p.last());
        lemma_line_text_concat(only, right);
        lemma_byte_len_concat(p.last(), line_text(right));
        assert(line_text(line).take(p.last().len() as int) =~= p.last());
        assert(byte_offset(line_text(line), p.last().len() as int) == byte_len(p.last()));
        assert(line_fits(line));
    }
}

/// Tests whether a cursor names one of the lines and a character boundary
/// in it.
pub fn cursor_stands(lines: &Vec<Line>, c: Cursor) -> (ok: bool)
    ensures
        ok == cursor_valid(lines_view(*lines), c),
{
    if c.line >= lines.len() {
        return false;
    }
    let chars = line_chars(&lines[c.line]);
    let (k, offset) = floor_boundary(&chars, c.index);
    proof {
        assert(lines_view(*lines)[c.line as int] == line_view(lines@[c.line as int]));
        if offset == c.index {
            assert(byte_offset(chars@, k as int) == c.index);
        }
    }
    offset == c.index
}

/// Tests whether lines can stand in a buffer.
pub fn lines_stand(lines: &Vec<Line>) -> (ok: bool)
    ensures
        ok == lines_wf(lines_view(*lines)),
{
    lines.len() >= 1 && all_fit(lines)
}

/// Tests whether a history can serve an editor: whether it is well formed
/// and each of its snapshots can be restored.
pub fn history_stands(history: &CosmicEditHistory) -> (ok: bool)
    ensures
        ok == history_valid(history@),
{
    let count = history.edits.len();
    if history.current_edit > count || count > MAX_EDITS {
        return false;
    }
    let mut i: usize = 0;
    while i < count
        invariant
            i <= count,
            count == history.edits@.len(),
            history_wf(history@),
            forall|j: int| 0 <= j < i ==> snapshot_wf(#[trigger] history@.edits[j]),
        decreases count - i,
    {
        let item = &history.edits[i];
        assert(history@.edits[i as int] == item@);
        if !lines_stand(&item.lines) || !cursor_stands(&item.lines, item.cursor) {
            return false;
        }
        i = i + 1;
    }
    true
}

impl View for CosmicEditor {
    type V = EditorView;

    closed spec fn view(&self) -> EditorView {
        EditorView {
            lines: self.buffer@.lines,
            form: self.buffer@.form,
            cursor: self.cursor,
            selection: self.selection,
            redraw: self.buffer@.redraw,
            default_attrs: self.default_attrs,
            cursor_visible: self.cursor_visible,
            metrics: self.buffer@.metrics,
            width: self.buffer@.width,
            height: self.buffer@.height,
            scale_resolved: self.buffer@.scale_resolved,
        }
    }
}

impl CosmicEditor {
    /// The editor is well formed.
    pub open spec fn wf(&self) -> bool {
        editor_wf(self@)
    }

    /// An editor of the given buffer, with the cursor at the start, nothing
    /// selected, and the attributes in which text is set that brings none
    /// of its own.
    pub fn new(buffer: TextBuffer, default_attrs: AttrsOwned) -> (editor: CosmicEditor)
        requires
            buffer.wf(),
        ensures
            editor.wf(),
            buffer_of(editor@) == buffer@,
            editor@.cursor == Cursor::default_spec(),
            editor@.selection == None::<Selection>,
            editor@.default_attrs == default_attrs,
            editor@.cursor_visible,
    {
        proof {
            lemma_byte_offset_ends(line_text(buffer@.lines[0]));
        }
        CosmicEditor {
            buffer,
            cursor: Cursor { line: 0, index: 0, affinity: crate::cursor::Affinity::Before },
            selection: None,
            default_attrs,
            cursor_visible: true,
        }
    }

    /// Tests whether the editor is well formed. It is, whatever was done to
    /// it through its own functions; the test is for a caller that cannot
    /// show so.
    pub fn is_wf(&self) -> (ok: bool)
        ensures
            ok == self.wf(),
    {
        if !lines_stand(&self.buffer.lines) || !cursor_stands(&self.buffer.lines, self.cursor) {
            return false;
        }
        match self.selection {
            Some(s) => cursor_stands(&self.buffer.lines, s.anchor) && s.active.line
                == self.cursor.line && s.active.index == self.cursor.index && s.active.affinity
                == self.cursor.affinity,
            None => true,
        }
    }

    /// The buffer that the editor edits.
    pub fn buffer(&self) -> (buffer: &TextBuffer)
        ensures
            buffer@ == buffer_of(self@),
            self.wf() ==> buffer.wf(),
    {
        &self.buffer
    }

    /// The part of the editor's buffer that shaping depends on beside the
    /// text, for a layout pass to change. Text, cursor and selection stay
    /// as they are.
    pub fn shaping_mut(&mut self) -> (shaping: &mut Shaping)
        ensures
            *shaping == shaping_of(buffer_of(old(self)@)),
            final(self)@ == (EditorView {
                metrics: final(shaping).metrics,
                width: final(shaping).width,
                height: final(shaping).height,
                redraw: final(shaping).redraw,
                scale_resolved: final(shaping).scale_resolved,
                ..old(self)@
            }),
    {
        &mut self.buffer.shaping
    }

    /// Sets the metrics that the text is shaped in, and marks it for
    /// redraw.
    pub fn set_metrics(&mut self, metrics: Metrics)
        ensures
            final(self)@ == (EditorView { metrics, redraw: true, ..old(self)@ }),
    {
        self.buffer.set_metrics(metrics);
    }

    /// Sets the width and the height that the text is shaped in, and marks
    /// it for redraw.
    pub fn set_size(&mut self, width: Extent, height: Extent)
        ensures
            final(self)@ == (EditorView { width, height, redraw: true, ..old(self)@ }),
    {
        self.buffer.set_size(width, height);
    }

    /// Scales the metrics to the device when the widget is first shown.
    /// Returns whether they were taken; they are not where the metrics were
    /// scaled before, and then nothing changes.
    pub fn set_initial_scale(&mut self, scaled: Metrics) -> (taken: bool)
        ensures
            taken == !old(self)@.scale_resolved,
            taken ==> final(self)@ == (EditorView {
                metrics: scaled,
                redraw: true,
                scale_resolved: true,
                ..old(self)@
            }),
            !taken ==> final(self)@ == old(self)@,
    {
        self.buffer.set_initial_scale(scaled)
    }

    /// The cursor.
    pub fn cursor(&self) -> (c: Cursor)
        ensures
            c == self@.cursor,
    {
        self.cursor
    }

    /// The selection, if there is one.
    pub fn selection(&self) -> (s: Option<Selection>)
        ensures
            s == self@.selection,
    {
        self.selection
    }

    /// Whether the text must be shaped and drawn again.
    pub fn redraw(&self) -> (flag: bool)
        ensures
            flag == self@.redraw,
    {
        self.buffer.shaping.redraw
    }

    /// Sets or clears the mark that the text must be shaped and drawn again.
    pub fn set_redraw(&mut self, flag: bool)
        ensures
            final(self)@ == (EditorView { redraw: flag, ..old(self)@ }),
    {
        self.buffer.shaping.redraw = flag;
    }

    /// Whether the cursor is drawn at the moment.
    pub fn cursor_visible(&self) -> (flag: bool)
        ensures
            flag == self@.cursor_visible,
    {
        self.cursor_visible
    }

    /// Shows or hides the cursor, as its blinking asks.
    pub fn set_cursor_visible(&mut self, flag: bool)
        ensures
            final(self)@ == (EditorView { cursor_visible: flag, ..old(self)@ }),
    {
        self.cursor_visible = flag;
    }

    /// The lines of runs.
    pub fn lines(&self) -> (lines: &Vec<Line>)
        ensures
            lines_view(*lines) == self@.lines,
    {
        &self.buffer.lines
    }

    /// The whole text, its lines joined by line breaks.
    pub fn get_text(&self) -> (text: String)
        ensures
            text@ == joined(self@.lines),
    {
        self.buffer.get_text()
    }

    fn clamp(&self, c: Cursor) -> (out: Cursor)
        requires
            lines_wf(self@.lines),
        ensures
            out == clamped(self@.lines, c),
            cursor_valid(self@.lines, out),
            cursor_valid(self@.lines, c) ==> out == c,
    {
        let line = if c.line < self.buffer.lines.len() {
            c.line
        } else {
            self.buffer.lines.len() - 1
        };
        let chars = line_chars(&self.buffer.lines[line]);
        let (_, offset) = floor_boundary(&chars, c.index);
        proof {
            lemma_clamped_is_valid(self@.lines, c);
            assert(self@.lines[line as int] == line_view(self.buffer.lines@[line as int]));
        }
        Cursor { line, index: offset, affinity: c.affinity }
    }

    fn end_of(&self, line: usize, affinity: crate::cursor::Affinity) -> (out: Cursor)
        requires
            lines_wf(self@.lines),
            line < self@.lines.len(),
        ensures
            out == (Cursor {
                line,
                index: byte_len(line_text(self@.lines[line as int])) as usize,
                affinity,
            }),
            out.index == byte_len(line_text(self@.lines[line as int])),
    {
        proof {
            assert(self@.lines[line as int] == line_view(self.buffer.lines@[line as int]));
            assert(line_fits(self@.lines[line as int]));
        }
        let index = match line_bytes(&self.buffer.lines[line]) {
            Some(total) => total,
            None => 0,
        };
        Cursor { line, index, affinity }
    }

    fn step(&self, d: Direction) -> (out: Cursor)
        requires
            self.wf(),
        ensures
            out == moved(self@.lines, self@.cursor, d),
            cursor_valid(self@.lines, out),
    {
        let c = self.cursor;
        let count = self.buffer.lines.len();
        proof {
            assert(self@.lines.len() == count);
            lemma_moved_is_valid(self@.lines, c, d);
            assert(self@.lines[c.line as int] == line_view(self.buffer.lines@[c.line as int]));
            assert(line_fits(self@.lines[c.line as int]));
            lemma_floor_position(line_text(self@.lines[c.line as int]), c.index as nat);
        }
        match d {
            Direction::Left => {
                let chars = line_chars(&self.buffer.lines[c.line]);
                let (pos, offset) = floor_boundary(&chars, c.index);
                if pos > 0 {
                    proof {
                        lemma_byte_offset_step(chars@, pos - 1);
                    }
                    Cursor {
                        line: c.line,
                        index: offset - char_width(chars[pos - 1]),
                        affinity: c.affinity,
                    }
                } else if c.line > 0 {
                    self.end_of(c.line - 1, c.affinity)
                } else {
                    c
                }
            },
            Direction::Right => {
                let chars = line_chars(&self.buffer.lines[c.line]);
                let (pos, offset) = floor_boundary(&chars, c.index);
                if pos < chars.len() {
                    proof {
                        lemma_byte_offset_step(chars@, pos as int);
                        lemma_byte_offset_monotone(chars@, pos + 1, chars@.len() as int);
                        lemma_byte_offset_ends(chars@);
                    }
                    Cursor {
                        line: c.line,
                        index: offset + char_width(chars[pos]),
                        affinity: c.affinity,
                    }
                } else if c.line < self.buffer.lines.len() - 1 {
                    Cursor { line: c.line + 1, index: 0, affinity: c.affinity }
                } else {
                    c
                }
            },
            Direction::Up => {
                if c.line > 0 {
                    self.clamp(Cursor { line: c.line - 1, index: c.index, affinity: c.affinity })
                } else {
                    c
                }
            },
            Direction::Down => {
                if c.line < self.buffer.lines.len() - 1 {
                    self.clamp(Cursor { line: c.line + 1, index: c.index, affinity: c.affinity })
                } else {
                    c
                }
            },
            Direction::Home => Cursor { line: c.line, index: 0, affinity: c.affinity },
            Direction::End => self.end_of(c.line, c.affinity),
            Direction::BufferStart => Cursor { line: 0, index: 0, affinity: c.affinity },
            Direction::BufferEnd => self.end_of(self.buffer.lines.len() - 1, c.affinity),
        }
    }

    /// A snapshot of the cursor and the lines.
    pub fn snapshot(&self) -> (item: EditHistoryItem)
        ensures
            item@ == snapshot_of(self@),
    {
        EditHistoryItem { cursor: self.cursor, lines: clone_lines(&self.buffer.lines) }
    }

    fn checkpoint(&self, history: &mut CosmicEditHistory)
        requires
            self.wf(),
            history_valid(old(history)@),
        ensures
            history_valid(final(history)@),
            final(history)@ == recorded(old(history)@, snapshot_of(self@)),
    {
        proof {
            lemma_history_stays_valid(history@, snapshot_of(self@));
        }
        history.record(self.snapshot());
    }

    fn restore(&mut self, item: EditHistoryItem)
        requires
            snapshot_wf(item@),
        ensures
            final(self).wf(),
            final(self)@ == restored(old(self)@, item@),
    {
        let EditHistoryItem { cursor, lines } = item;
        self.buffer.lines = lines;
        self.cursor = cursor;
        self.selection = None;
        self.buffer.shaping.redraw = true;
    }

    /// Takes the last step back: the state before it is restored from the
    /// history, and the state that is left is kept there for `redo`. Returns
    /// whether there was a step to take back; where there was none, nothing
    /// changes.
    pub fn undo(&mut self, history: &mut CosmicEditHistory) -> (done: bool)
        requires
            old(self).wf(),
            history_valid(old(history)@),
        ensures
            final(self).wf(),
            history_valid(final(history)@),
            done == can_undo(old(history)@),
            done ==> final(history)@ == undone(old(history)@, snapshot_of(old(self)@))
                && final(self)@ == restored(old(self)@, present(final(history)@)),
            done ==> in_step(final(self)@, final(history)@),
            !done ==> final(self)@ == old(self)@ && final(history)@ == old(history)@,
    {
        proof {
            lemma_history_stays_valid(history@, snapshot_of(self@));
        }
        match history.undo(self.snapshot()) {
            Some(item) => {
                self.restore(item);
                true
            },
            None => false,
        }
    }

    /// Takes a step forward again that `undo` took back. Returns whether
    /// there was one; where there was none, nothing changes.
    pub fn redo(&mut self, history: &mut CosmicEditHistory) -> (done: bool)
        requires
            old(self).wf(),
            history_valid(old(history)@),
        ensures
            final(self).wf(),
            history_valid(final(history)@),
            done == can_redo(old(history)@),
            done ==> final(history)@ == redone(old(history)@) && final(self)@ == restored(
                old(self)@,
                present(final(history)@),
            ),
            done ==> in_step(final(self)@, final(history)@),
            !done ==> final(self)@ == old(self)@ && final(history)@ == old(history)@,
    {
        proof {
            lemma_history_stays_valid(history@, snapshot_of(self@));
        }
        match history.redo() {
            Some(item) => {
                self.restore(item);
                true
            },
            None => false,
        }
    }

    /// Sets the text, and the attributes in which text is set that brings
    /// none. The cursor is brought onto the new text, nothing is selected,
    /// and the text is marked for redraw. Returns whether the text was set:
    /// it is not where a line is longer than byte indices can address; then
    /// nothing changes.
    pub fn set_text(&mut self, text: CosmicText, default_attrs: AttrsOwned) -> (done: bool)
        requires
            old(self).wf(),
        ensures
            final(self).wf(),
            done == all_lines_fit(lines_of(text@, default_attrs)),
            done ==> final(self)@ == after_set_text(old(self)@, text@, default_attrs),
            !done ==> final(self)@ == old(self)@,
    {
        if !self.buffer.set_text(text, &default_attrs) {
            return false;
        }
        self.default_attrs = default_attrs;
        self.cursor = self.clamp(self.cursor);
        self.selection = None;
        true
    }

    fn one_style_limited(&self, max_chars: usize, max_lines: usize) -> (kept: Vec<Line>)
        ensures
            lines_view(kept) == lines_of(
                TextView::OneStyle(
                    trimmed_one_style(joined(self@.lines), max_chars as nat, max_lines as nat),
                ),
                self@.default_attrs,
            ),
            lines_wf(lines_view(kept)),
    {
        let cut = trim_one_style(self.buffer.get_text(), max_chars, max_lines);
        let total = byte_length(cut.as_str());
        proof {
            lemma_one_style_lines(cut@, self.default_attrs);
        }
        let left: Line = Vec::new();
        let right: Line = Vec::new();
        assert(line_view(left) =~= Seq::<RunView>::empty());
        assert(line_view(right) =~= Seq::<RunView>::empty());
        splice(left, cut.as_str(), &self.default_attrs, right)
    }

    fn styled_limited(&self, max_chars: usize, max_lines: usize) -> (kept: Vec<Line>)
        requires
            lines_wf(self@.lines),
            max_chars != 0 || max_lines != 0,
        ensures
            lines_view(kept) == (if trimmed_multi_style(
                self@.lines,
                max_chars as nat,
                max_lines as nat,
            ).len() == 0 {
                seq![Seq::<RunView>::empty()]
            } else {
                trimmed_multi_style(self@.lines, max_chars as nat, max_lines as nat)
            }),
            lines_wf(lines_view(kept)),
    {
        let count = self.buffer.lines.len();
        proof {
            lemma_trimmed_lines_fit(self@.lines, count as nat, max_chars as nat, max_lines as nat);
        }
        let mut kept = trim_lines(&self.buffer.lines, max_chars, max_lines);
        if kept.len() == 0 {
            let empty: Line = Vec::new();
            assert(line_view(empty) =~= Seq::<RunView>::empty());
            kept.push(empty);
            assert(lines_view(kept) =~= seq![Seq::<RunView>::empty()]);
            proof {
                lemma_byte_offset_ends(line_text(Seq::<RunView>::empty()));
            }
        }
        kept
    }

    /// Applies the limits on characters and lines to the text as it stands
    /// after an edit: what lies beyond a limit is dropped from the end; 0
    /// sets no limit. A text in one style is truncated as one string, a
    /// styled text line by line. Cursor and selection are brought onto what
    /// is left.
    pub fn truncate(&mut self, max_chars: usize, max_lines: usize)
        requires
            old(self).wf(),
        ensures
            final(self).wf(),
            final(self)@ == after_truncate(old(self)@, max_chars as nat, max_lines as nat),
    {
        if max_chars == 0 && max_lines == 0 {
            return ;
        }
        let kept = match self.buffer.form {
            TextForm::OneStyle => self.one_style_limited(max_chars, max_lines),
            TextForm::MultiStyle => self.styled_limited(max_chars, max_lines),
        };
        let lines_left = kept.len();
        let old_cursor = self.cursor;
        self.buffer.lines = kept;
        self.cursor = self.clamp(old_cursor);
        self.selection = match self.selection {
            Some(s) => if s.anchor.line < lines_left && old_cursor.line < lines_left {
                Some(Selection { anchor: self.clamp(s.anchor), active: self.cursor })
            } else {
                None
            },
            None => None,
        };
        self.buffer.shaping.redraw = true;
    }

    /// Shows the cursor where it was hidden and hides it where it was
    /// shown, as the blink timer asks, and marks the text for redraw.
    pub fn blink_cursor(&mut self)
        ensures
            final(self)@ == (EditorView {
                cursor_visible: !old(self)@.cursor_visible,
                redraw: true,
                ..old(self)@
            }),
    {
        self.cursor_visible = !self.cursor_visible;
        self.buffer.shaping.redraw = true;
    }

    /// Holds the cursor visible while the user is at work: where a
    /// navigation key is pressed or a character was typed, the cursor is
    /// shown and the text marked for redraw. Returns whether that is so; the
    /// caller then starts the blink timer anew.
    pub fn freeze_cursor_blink(&mut self, key_pressed: bool, typed: bool) -> (frozen: bool)
        ensures
            frozen == (key_pressed || typed),
            frozen ==> final(self)@ == (EditorView {
                cursor_visible: true,
                redraw: true,
                ..old(self)@
            }),
            !frozen ==> final(self)@ == old(self)@,
    {
        if !key_pressed && !typed {
            return false;
        }
        self.cursor_visible = true;
        self.buffer.shaping.redraw = true;
        true
    }

    fn locate(&self, c: Cursor) -> (p: (usize, usize))
        requires
            lines_wf(self@.lines),
            cursor_valid(self@.lines, c),
        ensures
            (p.0 as int, p.1 as int) == place(self@.lines, c),
            place_in(self@.lines, place(self@.lines, c)),
            byte_offset(line_text(self@.lines[c.line as int]), p.1 as int) == c.index,
    {
        let chars = line_chars(&self.buffer.lines[c.line]);
        let (pos, _) = floor_boundary(&chars, c.index);
        proof {
            assert(self@.lines[c.line as int] == line_view(self.buffer.lines@[c.line as int]));
            lemma_floor_position(chars@, c.index as nat);
        }
        (c.line, pos)
    }

    fn replace(
        &mut self,
        from: (usize, usize),
        to: (usize, usize),
        s: &str,
        attrs: &AttrsOwned,
        history: &mut CosmicEditHistory,
    ) -> (done: bool)
        requires
            old(self).wf(),
            history_valid(old(history)@),
            place_in(old(self)@.lines, (from.0 as int, from.1 as int)),
            place_in(old(self)@.lines, (to.0 as int, to.1 as int)),
            place_le((from.0 as int, from.1 as int), (to.0 as int, to.1 as int)),
        ensures
            final(self).wf(),
            history_valid(final(history)@),
            done == replace_fits(
                old(self)@.lines,
                (from.0 as int, from.1 as int),
                (to.0 as int, to.1 as int),
                s@,
                *attrs,
            ),
            done ==> final(self)@ == after_replace(
                old(self)@,
                (from.0 as int, from.1 as int),
                (to.0 as int, to.1 as int),
                s@,
                *attrs,
            ) && final(history)@ == recorded(old(history)@, snapshot_of(old(self)@)),
            !done ==> final(self)@ == old(self)@ && final(history)@ == old(history)@,
    {
        let ghost lines = self@.lines;
        let ghost f = (from.0 as int, from.1 as int);
        let ghost t = (to.0 as int, to.1 as int);
        proof {
            assert(lines[f.0] == line_view(self.buffer.lines@[f.0]));
            assert(lines[t.0] == line_view(self.buffer.lines@[t.0]));
            assert(line_fits(lines[f.0]));
            assert(line_fits(lines[t.0]));
        }
        let (left, _) = split_line(&self.buffer.lines[from.0], from.1);
        let (_, right) = split_line(&self.buffer.lines[to.0], to.1);
        let left_bytes = line_bytes(&left);
        let parts = split_text(s);
        let count = parts.len();
        let piece_bytes = byte_length(
            parts[if count == 1 {
                0
            } else {
                count - 1
            }].as_str(),
        );
        let middle = splice(left, s, attrs, right);
        if !all_fit(&middle) {
            return false;
        }
        proof {
            lemma_history_stays_valid(history@, snapshot_of(self@));
        }
        history.record(self.snapshot());
        put_lines(&mut self.buffer.lines, from.0, to.0, middle);
        let total = self.buffer.lines.len();
        proof {
            assert(self@.lines =~= replaced(lines, f, t, s@, *attrs));
            lemma_replace_keeps_wf(lines, f, t, s@, *attrs, old(self)@.cursor);
            assert(pieces(s@)[0] == parts@[0]@);
            assert(pieces(s@).last() == parts@[count - 1]@);
        }
        self.cursor = if count == 1 {
            let before = match left_bytes {
                Some(b) => b,
                None => 0,
            };
            Cursor { line: from.0, index: before + piece_bytes, affinity: self.cursor.affinity }
        } else {
            Cursor {
                line: from.0 + (count - 1),
                index: piece_bytes,
                affinity: self.cursor.affinity,
            }
        };
        self.selection = None;
        self.buffer.shaping.redraw = true;
        true
    }

    fn range(&self) -> (r: ((usize, usize), (usize, usize)))
        requires
            self.wf(),
        ensures
            ((r.0.0 as int, r.0.1 as int), (r.1.0 as int, r.1.1 as int)) == edit_range(self@),
            place_in(self@.lines, edit_range(self@).0),
            place_in(self@.lines, edit_range(self@).1),
            place_le(edit_range(self@).0, edit_range(self@).1),
    {
        let c = self.locate(self.cursor);
        match self.selection {
            Some(s) => {
                let a = self.locate(s.anchor);
                if a.0 < c.0 || (a.0 == c.0 && a.1 <= c.1) {
                    (a, c)
                } else {
                    (c, a)
                }
            },
            None => (c, c),
        }
    }

    fn attrs_between(&self, from: (usize, usize), to: (usize, usize)) -> (attrs: AttrsOwned)
        requires
            self.wf(),
            place_in(self@.lines, (from.0 as int, from.1 as int)),
            place_in(self@.lines, (to.0 as int, to.1 as int)),
        ensures
            attrs == inherited_attrs(
                self@,
                (from.0 as int, from.1 as int),
                (to.0 as int, to.1 as int),
            ),
    {
        proof {
            assert(self@.lines[from.0 as int] == line_view(self.buffer.lines@[from.0 as int]));
            assert(self@.lines[to.0 as int] == line_view(self.buffer.lines@[to.0 as int]));
            assert(line_fits(self@.lines[from.0 as int]));
            assert(line_fits(self@.lines[to.0 as int]));
        }
        let (left, _) = split_line(&self.buffer.lines[from.0], from.1);
        let (_, right) = split_line(&self.buffer.lines[to.0], to.1);
        if left.len() > 0 {
            assert(line_view(left).last() == crate::text::run_view(left@[left@.len() - 1]));
            left[left.len() - 1].1.clone()
        } else if right.len() > 0 {
            assert(line_view(right)[0] == crate::text::run_view(right@[0]));
            right[0].1.clone()
        } else {
            self.default_attrs.clone()
        }
    }

    /// Puts text in at the cursor, in the given attributes or, where none
    /// are given, in those of the text around it. Text that brings
    /// attributes makes the text a styled one. A selection is replaced by
    /// the text, in one step of the history. Each line break in the text
    /// starts a line. The state before is recorded in the history, the
    /// cursor goes behind the new text, and the text is marked for redraw.
    /// Returns whether the edit was made: it is not made where there is
    /// nothing to put in and nothing selected, or where a line would grow
    /// beyond what byte indices can address; then nothing changes.
    pub fn insert_text(
        &mut self,
        text: &str,
        attrs: Option<AttrsOwned>,
        history: &mut CosmicEditHistory,
    ) -> (done: bool)
        requires
            old(self).wf(),
            history_valid(old(history)@),
        ensures
            final(self).wf(),
            history_valid(final(history)@),
            done == (!(text@.len() == 0 && edit_range(old(self)@).0 == edit_range(old(self)@).1)
                && replace_fits(
                old(self)@.lines,
                edit_range(old(self)@).0,
                edit_range(old(self)@).1,
                text@,
                insert_attrs(old(self)@, attrs),
            )),
            done ==> final(self)@ == after_insert(old(self)@, text@, attrs) && final(history)@
                == recorded(old(history)@, snapshot_of(old(self)@)),
            !done ==> final(self)@ == old(self)@ && final(history)@ == old(history)@,
    {
        let (from, to) = self.range();
        if text.unicode_len() == 0 && from.0 == to.0 && from.1 == to.1 {
            return false;
        }
        let styled = attrs.is_some();
        let run_attrs = match attrs {
            Some(a) => a,
            None => self.attrs_between(from, to),
        };
        let done = self.replace(from, to, text, &run_attrs, history);
        if done && styled {
            self.buffer.form = TextForm::MultiStyle;
        }
        done
    }

    fn delete(&mut self, from: (usize, usize), to: (usize, usize), history: &mut CosmicEditHistory)
        -> (done: bool)
        requires
            old(self).wf(),
            history_valid(old(history)@),
            place_in(old(self)@.lines, (from.0 as int, from.1 as int)),
            place_in(old(self)@.lines, (to.0 as int, to.1 as int)),
            place_le((from.0 as int, from.1 as int), (to.0 as int, to.1 as int)),
        ensures
            final(self).wf(),
            history_valid(final(history)@),
            done == (from != to && replace_fits(
                old(self)@.lines,
                (from.0 as int, from.1 as int),
                (to.0 as int, to.1 as int),
                Seq::<char>::empty(),
                old(self)@.default_attrs,
            )),
            done ==> final(self)@ == after_replace(
                old(self)@,
                (from.0 as int, from.1 as int),
                (to.0 as int, to.1 as int),
                Seq::<char>::empty(),
                old(self)@.default_attrs,
            ) && final(history)@ == recorded(old(history)@, snapshot_of(old(self)@)),
            !done ==> final(self)@ == old(self)@ && final(history)@ == old(history)@,
    {
        if from.0 == to.0 && from.1 == to.1 {
            return false;
        }
        let attrs = self.default_attrs.clone();
        let nothing = String::new();
        self.replace(from, to, nothing.as_str(), &attrs, history)
    }

    /// Deletes the selection, or else what stands before the cursor: a
    /// character, or at the start of a line the break that sets the line
    /// off, so that it joins the line before. The state before is recorded
    /// in the history. Returns whether anything was deleted; nothing is at
    /// the start of the text, or where the joined line would grow beyond
    /// what byte indices can address.
    pub fn delete_backward(&mut self, history: &mut CosmicEditHistory) -> (done: bool)
        requires
            old(self).wf(),
            history_valid(old(history)@),
        ensures
            final(self).wf(),
            history_valid(final(history)@),
            done == (backward_range(old(self)@).0 != backward_range(old(self)@).1 && replace_fits(
                old(self)@.lines,
                backward_range(old(self)@).0,
                backward_range(old(self)@).1,
                Seq::<char>::empty(),
                old(self)@.default_attrs,
            )),
            done ==> final(self)@ == after_replace(
                old(self)@,
                backward_range(old(self)@).0,
                backward_range(old(self)@).1,
                Seq::<char>::empty(),
                old(self)@.default_attrs,
            ) && final(history)@ == recorded(old(history)@, snapshot_of(old(self)@)),
            !done ==> final(self)@ == old(self)@ && final(history)@ == old(history)@,
    {
        let (from, to) = self.range();
        if from.0 != to.0 || from.1 != to.1 {
            self.delete(from, to, history)
        } else if to.1 > 0 {
            self.delete((to.0, to.1 - 1), to, history)
        } else if to.0 > 0 {
            let before = line_chars(&self.buffer.lines[to.0 - 1]).len();
            proof {
                assert(self@.lines[to.0 - 1] == line_view(self.buffer.lines@[to.0 - 1]));
            }
            self.delete((to.0 - 1, before), to, history)
        } else {
            false
        }
    }

    /// Deletes the selection, or else what stands after the cursor: a
    /// character, or at the end of a line the break that ends it, so that
    /// the next line joins it. The state before is recorded in the history.
    /// Returns whether anything was deleted; nothing is at the end of the
    /// text, or where the joined line would grow beyond what byte indices
    /// can address.
    pub fn delete_forward(&mut self, history: &mut CosmicEditHistory) -> (done: bool)
        requires
            old(self).wf(),
            history_valid(old(history)@),
        ensures
            final(self).wf(),
            history_valid(final(history)@),
            done == (forward_range(old(self)@).0 != forward_range(old(self)@).1 && replace_fits(
                old(self)@.lines,
                forward_range(old(self)@).0,
                forward_range(old(self)@).1,
                Seq::<char>::empty(),
                old(self)@.default_attrs,
            )),
            done ==> final(self)@ == after_replace(
                old(self)@,
                forward_range(old(self)@).0,
                forward_range(old(self)@).1,
                Seq::<char>::empty(),
                old(self)@.default_attrs,
            ) && final(history)@ == recorded(old(history)@, snapshot_of(old(self)@)),
            !done ==> final(self)@ == old(self)@ && final(history)@ == old(history)@,
    {
        let (from, to) = self.range();
        if from.0 != to.0 || from.1 != to.1 {
            self.delete(from, to, history)
        } else {
            let here = line_chars(&self.buffer.lines[from.0]).len();
            proof {
                assert(self@.lines[from.0 as int] == line_view(self.buffer.lines@[from.0 as int]));
            }
            if from.1 < here {
                self.delete(from, (from.0, from.1 + 1), history)
            } else if from.0 < self.buffer.lines.len() - 1 {
                self.delete(from, (from.0 + 1, 0), history)
            } else {
                false
            }
        }
    }

    /// Moves the cursor. With `extend_selection` the selection reaches from
    /// where it began, or from where the cursor stood, to the cursor's new
    /// place; without, it is dropped. The state before is recorded in the
    /// history, and the text is marked for redraw.
    pub fn move_cursor(
        &mut self,
        direction: Direction,
        extend_selection: bool,
        history: &mut CosmicEditHistory,
    )
        requires
            old(self).wf(),
            history_valid(old(history)@),
        ensures
            final(self).wf(),
            history_valid(final(history)@),
            final(history)@ == recorded(old(history)@, snapshot_of(old(self)@)),
            final(self)@ == (EditorView {
                cursor: moved(old(self)@.lines, old(self)@.cursor, direction),
                selection: selection_after_move(
                    old(self)@.selection,
                    old(self)@.cursor,
                    moved(old(self)@.lines, old(self)@.cursor, direction),
                    extend_selection,
                ),
                redraw: true,
                ..old(self)@
            }),
    {
        self.checkpoint(history);
        let to = self.step(direction);
        let anchor = match self.selection {
            Some(s) => s.anchor,
            None => self.cursor,
        };
        self.selection = if extend_selection {
            Some(Selection { anchor, active: to })
        } else {
            None
        };
        self.cursor = to;
        self.buffer.shaping.redraw = true;
    }

    /// Puts the cursor at `cursor`, brought onto the text where it lies
    /// outside: nothing is refused. A selection follows with its active end.
    /// The state before is recorded in the history, and the text is marked
    /// for redraw.
    pub fn set_cursor(&mut self, cursor: Cursor, history: &mut CosmicEditHistory)
        requires
            old(self).wf(),
            history_valid(old(history)@),
        ensures
            final(self).wf(),
            history_valid(final(history)@),
            final(history)@ == recorded(old(history)@, snapshot_of(old(self)@)),
            final(self)@ == (EditorView {
                cursor: clamped(old(self)@.lines, cursor),
                selection: match old(self)@.selection {
                    Some(s) => Some(
                        Selection { anchor: s.anchor, active: clamped(old(self)@.lines, cursor) },
                    ),
                    None => None,
                },
                redraw: true,
                ..old(self)@
            }),
            cursor_valid(old(self)@.lines, cursor) ==> final(self)@.cursor == cursor,
    {
        self.checkpoint(history);
        let to = self.clamp(cursor);
        self.selection = match self.selection {
            Some(s) => Some(Selection { anchor: s.anchor, active: to }),
            None => None,
        };
        self.cursor = to;
        self.buffer.shaping.redraw = true;
    }

    /// Sets or drops the selection. Both ends are brought onto the text
    /// where they lie outside, and the cursor goes to the active end. The
    /// state before is recorded in the history, and the text is marked for
    /// redraw.
    pub fn set_selection(
        &mut self,
        selection: Option<Selection>,
        history: &mut CosmicEditHistory,
    )
        requires
            old(self).wf(),
            history_valid(old(history)@),
        ensures
            final(self).wf(),
            history_valid(final(history)@),
            final(history)@ == recorded(old(history)@, snapshot_of(old(self)@)),
            final(self)@ == (EditorView {
                cursor: match selection {
                    Some(s) => clamped(old(self)@.lines, s.active),
                    None => old(self)@.cursor,
                },
                selection: match selection {
                    Some(s) => Some(
                        Selection {
                            anchor: clamped(old(self)@.lines, s.anchor),
                            active: clamped(old(self)@.lines, s.active),
                        },
                    ),
                    None => None,
                },
                redraw: true,
                ..old(self)@
            }),
    {
        self.checkpoint(history);
        match selection {
            Some(s) => {
                let anchor = self.clamp(s.anchor);
                let active = self.clamp(s.active);
                self.selection = Some(Selection { anchor, active });
                self.cursor = active;
            },
            None => {
                self.selection = None;
            },
        }
        self.buffer.shaping.redraw = true;
    }

    /// Selects the whole text: from its start to its end, where the cursor
    /// goes. The state before is recorded in the history, and the text is
    /// marked for redraw.
    pub fn select_all(&mut self, history: &mut CosmicEditHistory)
        requires
            old(self).wf(),
            history_valid(old(history)@),
        ensures
            final(self).wf(),
            history_valid(final(history)@),
            final(history)@ == recorded(old(history)@, snapshot_of(old(self)@)),
            final(self)@ == (EditorView {
                cursor: moved(old(self)@.lines, old(self)@.cursor, Direction::BufferEnd),
                selection: Some(
                    Selection {
                        anchor: moved(old(self)@.lines, old(self)@.cursor, Direction::BufferStart),
                        active: moved(old(self)@.lines, old(self)@.cursor, Direction::BufferEnd),
                    },
                ),
                redraw: true,
                ..old(self)@
            }),
    {
        self.checkpoint(history);
        let anchor = self.step(Direction::BufferStart);
        let active = self.step(Direction::BufferEnd);
        self.selection = Some(Selection { anchor, active });
        self.cursor = active;
        self.buffer.shaping.redraw = true;
    }
}

} // verus!
