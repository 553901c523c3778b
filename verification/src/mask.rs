use crate::cursor::byte_len;
use crate::cursor::byte_length;
use crate::cursor::byte_offset;
use crate::cursor::char_width;
use crate::cursor::floor_boundary;
use crate::cursor::floor_position;
use crate::cursor::is_boundary;
use crate::cursor::lemma_byte_offset_ends;
use crate::cursor::lemma_byte_offset_monotone;
use crate::cursor::lemma_byte_offset_step;
use crate::cursor::lemma_floor_position;
use crate::cursor::utf8_len;
use crate::cursor::Cursor;
use crate::cursor::Selection;
use crate::edit::lemma_pieces_nonempty;
use crate::edit::pieces;
use crate::edit::split_text;
use crate::text::chars_of;
use vstd::prelude::*;

verus! {

/// A line with each of its characters replaced by the mask character.
pub open spec fn masked_line(s: Seq<char>, mask: char) -> Seq<char> {
    Seq::new(s.len(), |i: int| mask)
}

/// The byte index in a masked line that stands for a byte index in the
/// line: as many mask characters as the line has characters at or before
/// the index.
pub open spec fn masked_index(s: Seq<char>, index: nat, mask: char) -> nat {
    (floor_position(s, index) * utf8_len(mask)) as nat
}

/// The byte index in a line that a byte index in the masked line stands
/// for: that of the character which the mask character at the index
/// replaced, or the end of the line where the index lies beyond.
pub open spec fn unmasked_index(s: Seq<char>, index: nat, mask: char) -> nat {
    let k = index / utf8_len(mask);
    byte_offset(
        s,
        if k <= s.len() {
            k as int
        } else {
            s.len() as int
        },
    )
}

/// Whether the masked line of `s` can be addressed by a byte index.
pub open spec fn mask_fits(s: Seq<char>, mask: char) -> bool {
    s.len() * utf8_len(mask) <= usize::MAX
}

pub proof fn lemma_masked_offset(s: Seq<char>, mask: char, k: int)
    requires
        0 <= k <= s.len(),
    ensures
        byte_offset(masked_line(s, mask), k) == k * utf8_len(mask),
    decreases k,
{
    let m = masked_line(s, mask);
    if k == 0 {
        lemma_byte_offset_ends(m);
    } else {
        lemma_masked_offset(s, mask, k - 1);
        lemma_byte_offset_step(m, k - 1);
        assert(k * utf8_len(mask) == (k - 1) * utf8_len(mask) + utf8_len(mask))
            by (nonlinear_arith);
    }
}

/// A masked index is a character boundary of the masked line.
pub proof fn lemma_masked_index_is_boundary(s: Seq<char>, index: nat, mask: char)
    ensures
        is_boundary(masked_line(s, mask), masked_index(s, index, mask)),
{
    lemma_floor_position(s, index);
    lemma_masked_offset(s, mask, floor_position(s, index));
}

/// An unmasked index is a character boundary of the line.
pub proof fn lemma_unmasked_index_is_boundary(s: Seq<char>, index: nat, mask: char)
    ensures
        is_boundary(s, unmasked_index(s, index, mask)),
{
    let k = index / utf8_len(mask);
    let p = if k <= s.len() {
        k as int
    } else {
        s.len() as int
    };
    assert(0 <= k) by (nonlinear_arith)
        requires
            k == index / utf8_len(mask),
            utf8_len(mask) > 0,
    ;
    assert(byte_offset(s, p) == unmasked_index(s, index, mask));
}

/// Masking and then unmasking recovers the byte index of a cursor that
/// stands on a character boundary of its line, whatever the line and the
/// mask character. The text itself is never changed by masking.
pub proof fn lemma_mask_round_trip(s: Seq<char>, index: nat, mask: char)
    requires
        is_boundary(s, index),
    ensures
        unmasked_index(s, masked_index(s, index, mask), mask) == index,
{
    lemma_floor_position(s, index);
    let k = floor_position(s, index);
    let w = utf8_len(mask) as int;
    assert((k * w) / w == k) by (nonlinear_arith)
        requires
            k >= 0,
            w > 0,
    ;
}

/// A text with each of its characters replaced by the mask character, but
/// for the line breaks, which stay.
pub open spec fn masked_text(s: Seq<char>, mask: char) -> Seq<char> {
    Seq::new(
        s.len(),
        |i: int|
            if s[i] == '\n' {
                '\n'
            } else {
                mask
            },
    )
}

/// Line `line` of a text, counted from 0; empty where the text has no such
/// line.
pub open spec fn line_at(s: Seq<char>, line: nat) -> Seq<char> {
    if line < pieces(s).len() {
        pieces(s)[line as int]
    } else {
        Seq::empty()
    }
}

/// The lines of a text, each masked.
pub open spec fn masked_lines(s: Seq<char>, mask: char) -> Seq<Seq<char>> {
    pieces(s).map_values(|line: Seq<char>| masked_line(line, mask))
}

/// The lines of the masked text are the masked lines of the text, where the
/// mask character is no line break: a cursor that is moved into the masked
/// text finds there the line it was moved by.
pub proof fn lemma_masked_text_lines(s: Seq<char>, mask: char)
    requires
        mask != '\n',
    ensures
        pieces(masked_text(s, mask)) == masked_lines(s, mask),
    decreases s.len(),
{
    let shown = masked_text(s, mask);
    if s.len() == 0 {
        assert(shown =~= s);
        assert(masked_line(Seq::<char>::empty(), mask) =~= Seq::<char>::empty());
        assert(pieces(s)[0] =~= Seq::<char>::empty());
        assert(pieces(shown) =~= masked_lines(s, mask));
    } else {
        let t = s.drop_last();
        lemma_masked_text_lines(t, mask);
        lemma_pieces_nonempty(t);
        assert(shown.drop_last() =~= masked_text(t, mask));
        let head = pieces(t);
        let shown_head = pieces(masked_text(t, mask));
        if s.last() == '\n' {
            assert(shown.last() == '\n');
            assert(masked_line(Seq::<char>::empty(), mask) =~= Seq::<char>::empty());
            assert(shown_head.push(Seq::<char>::empty()) =~= masked_lines(s, mask));
        } else {
            assert(shown.last() == mask);
            assert(masked_line(head.last().push(s.last()), mask) =~= masked_line(
                head.last(),
                mask,
            ).push(mask));
            assert(shown_head.drop_last().push(shown_head.last().push(mask)) =~= masked_lines(
                s,
                mask,
            ));
        }
    }
}

/// The mask character once for each character of the text, with the line
/// breaks kept.
pub fn mask_text(text: &str, mask: char) -> (out: String)
    ensures
        out@ == masked_text(text@, mask),
{
    let chars = chars_of(text);
    let mut out = String::new();
    let mut i: usize = 0;
    while i < chars.len()
        invariant
            i <= chars.len(),
            chars@ == text@,
            out@ == masked_text(text@, mask).take(i as int),
        decreases chars.len() - i,
    {
        if chars[i] == '\n' {
            out.push('\n');
        } else {
            out.push(mask);
        }
        i = i + 1;
        assert(out@ =~= masked_text(text@, mask).take(i as int));
    }
    assert(out@ =~= masked_text(text@, mask));
    out
}

/// The mask character repeated once for each character of a line.
pub fn mask_line(text: &str, mask: char) -> (out: String)
    ensures
        out@ == masked_line(text@, mask),
        mask_fits(text@, mask),
{
    let chars = chars_of(text);
    let mut out = String::new();
    let mut i: usize = 0;
    while i < chars.len()
        invariant
            i <= chars.len(),
            out@ == Seq::new(i as nat, |k: int| mask),
        decreases chars.len() - i,
    {
        out.push(mask);
        i = i + 1;
        assert(out@ =~= Seq::new(i as nat, |k: int| mask));
    }
    assert(out@ =~= masked_line(text@, mask));
    let total = byte_length(out.as_str());
    proof {
        lemma_masked_offset(text@, mask, text@.len() as int);
        lemma_byte_offset_ends(masked_line(text@, mask));
    }
    out
}

/// Maps a byte index in a line to the byte index in the masked line.
pub fn mask_index(text: &str, index: usize, mask: char) -> (out: usize)
    requires
        mask_fits(text@, mask),
    ensures
        out == masked_index(text@, index as nat, mask),
{
    let chars = chars_of(text);
    let (k, _) = floor_boundary(&chars, index);
    let w = char_width(mask);
    assert(k * w <= chars@.len() * w) by (nonlinear_arith)
        requires
            k <= chars@.len(),
            w >= 0,
    ;
    k * w
}

/// Maps a byte index in a masked line back to the byte index in the line.
pub fn unmask_index(text: &str, index: usize, mask: char) -> (out: usize)
    ensures
        out == unmasked_index(text@, index as nat, mask),
{
    let chars = chars_of(text);
    let w = char_width(mask);
    let k = index / w;
    let stop = if k <= chars.len() {
        k
    } else {
        chars.len()
    };
    let total = byte_length(text);
    let mut offset: usize = 0;
    let mut i: usize = 0;
    proof {
        lemma_byte_offset_ends(chars@);
    }
    while i < stop
        invariant
            i <= stop <= chars.len(),
            offset == byte_offset(chars@, i as int),
            total == byte_len(chars@),
        decreases stop - i,
    {
        proof {
            lemma_byte_offset_step(chars@, i as int);
            lemma_byte_offset_monotone(chars@, i + 1, chars@.len() as int);
            lemma_byte_offset_ends(chars@);
        }
        offset = offset + char_width(chars[i]);
        i = i + 1;
    }
    offset
}

/// A cursor moved into the masked text: it stays in its line, at the same
/// character position.
pub open spec fn masked_cursor(s: Seq<char>, cursor: Cursor, mask: char) -> Cursor {
    Cursor {
        line: cursor.line,
        index: masked_index(line_at(s, cursor.line as nat), cursor.index as nat, mask) as usize,
        affinity: cursor.affinity,
    }
}

/// A cursor moved back from the masked text into the text.
pub open spec fn unmasked_cursor(s: Seq<char>, cursor: Cursor, mask: char) -> Cursor {
    Cursor {
        line: cursor.line,
        index: unmasked_index(line_at(s, cursor.line as nat), cursor.index as nat, mask) as usize,
        affinity: cursor.affinity,
    }
}

/// A selection with both ends moved into the masked text.
pub open spec fn masked_selection(s: Seq<char>, selection: Option<Selection>, mask: char) -> Option<
    Selection,
> {
    match selection {
        Some(sel) => Some(
            Selection {
                anchor: masked_cursor(s, sel.anchor, mask),
                active: masked_cursor(s, sel.active, mask),
            },
        ),
        None => None,
    }
}

/// A selection with both ends moved back into the text.
pub open spec fn unmasked_selection(s: Seq<char>, selection: Option<Selection>, mask: char)
    -> Option<Selection> {
    match selection {
        Some(sel) => Some(
            Selection {
                anchor: unmasked_cursor(s, sel.anchor, mask),
                active: unmasked_cursor(s, sel.active, mask),
            },
        ),
        None => None,
    }
}

/// A password field as it is shown: the masked text, with the cursor and
/// the selection where they stand in it.
pub struct MaskedField {
    pub text: String,
    pub cursor: Cursor,
    pub selection: Option<Selection>,
}

/// Moves a cursor into the masked text.
pub fn mask_cursor(text: &str, cursor: Cursor, mask: char) -> (shown: Cursor)
    ensures
        shown == masked_cursor(text@, cursor, mask),
        mask_fits(line_at(text@, cursor.line as nat), mask),
{
    let parts = split_text(text);
    let index = if cursor.line < parts.len() {
        let line = parts[cursor.line].as_str();
        assert(pieces(text@)[cursor.line as int] == parts@[cursor.line as int]@);
        let _ = mask_line(line, mask);
        mask_index(line, cursor.index, mask)
    } else {
        assert(0 * utf8_len(mask) == 0) by (nonlinear_arith);
        0
    };
    Cursor { line: cursor.line, index, affinity: cursor.affinity }
}

/// Moves a cursor back from the masked text into the text.
pub fn unmask_cursor(text: &str, cursor: Cursor, mask: char) -> (restored: Cursor)
    ensures
        restored == unmasked_cursor(text@, cursor, mask),
{
    let parts = split_text(text);
    let index = if cursor.line < parts.len() {
        let line = parts[cursor.line].as_str();
        assert(pieces(text@)[cursor.line as int] == parts@[cursor.line as int]@);
        unmask_index(line, cursor.index, mask)
    } else {
        proof {
            lemma_byte_offset_ends(Seq::<char>::empty());
            let k = (cursor.index as nat) / utf8_len(mask);
            assert(0 <= k) by (nonlinear_arith)
                requires
                    k == (cursor.index as nat) / utf8_len(mask),
                    utf8_len(mask) > 0,
            ;
        }
        0
    };
    Cursor { line: cursor.line, index, affinity: cursor.affinity }
}

/// Masks a password field for shaping: each character of each line is
/// shown as the mask character, the line breaks stay, and the cursor and
/// the selection are moved to the same character positions in their lines.
/// The text itself is not changed and stays with the caller.
pub fn hide_password_text(text: &str, cursor: Cursor, selection: Option<Selection>, mask: char)
    -> (shown: MaskedField)
    ensures
        shown.text@ == masked_text(text@, mask),
        shown.cursor == masked_cursor(text@, cursor, mask),
        shown.selection == masked_selection(text@, selection, mask),
{
    let shown_selection = match selection {
        Some(sel) => Some(
            Selection {
                anchor: mask_cursor(text, sel.anchor, mask),
                active: mask_cursor(text, sel.active, mask),
            },
        ),
        None => None,
    };
    MaskedField {
        text: mask_text(text, mask),
        cursor: mask_cursor(text, cursor, mask),
        selection: shown_selection,
    }
}

/// Maps the cursor and the selection of a masked password field back to
/// the text that the mask stands for, when the mask is taken off.
pub fn restore_password_text(
    text: &str,
    cursor: Cursor,
    selection: Option<Selection>,
    mask: char,
) -> (restored: (Cursor, Option<Selection>))
    ensures
        restored.0 == unmasked_cursor(text@, cursor, mask),
        restored.1 == unmasked_selection(text@, selection, mask),
{
    let restored_selection = match selection {
        Some(sel) => Some(
            Selection {
                anchor: unmask_cursor(text, sel.anchor, mask),
                active: unmask_cursor(text, sel.active, mask),
            },
        ),
        None => None,
    };
    (unmask_cursor(text, cursor, mask), restored_selection)
}

/// A cursor that is moved into the masked text stands there on a character
/// boundary of its line, where the mask character is no line break.
pub proof fn lemma_masked_cursor_is_boundary(s: Seq<char>, cursor: Cursor, mask: char)
    requires
        mask != '\n',
    ensures
        is_boundary(
            line_at(masked_text(s, mask), cursor.line as nat),
            masked_index(line_at(s, cursor.line as nat), cursor.index as nat, mask),
        ),
{
    lemma_masked_text_lines(s, mask);
    let line = line_at(s, cursor.line as nat);
    lemma_masked_index_is_boundary(line, cursor.index as nat, mask);
    if cursor.line >= pieces(s).len() {
        assert(masked_line(line, mask) =~= Seq::<char>::empty());
    }
}

/// Masking a field and taking the mask off again gives back the cursor as
/// it was, for any text and any mask character, where the cursor stands on
/// a character boundary of its line.
pub proof fn lemma_masked_cursor_round_trip(s: Seq<char>, cursor: Cursor, mask: char)
    requires
        is_boundary(line_at(s, cursor.line as nat), cursor.index as nat),
        mask_fits(line_at(s, cursor.line as nat), mask),
    ensures
        unmasked_cursor(s, masked_cursor(s, cursor, mask), mask) == cursor,
{
    let line = line_at(s, cursor.line as nat);
    lemma_mask_round_trip(line, cursor.index as nat, mask);
    lemma_floor_position(line, cursor.index as nat);
    let k = floor_position(line, cursor.index as nat);
    assert(k * utf8_len(mask) <= line.len() * utf8_len(mask)) by (nonlinear_arith)
        requires
            0 <= k <= line.len(),
    ;
}

/// What a widget shows in place of its text.
#[derive(Clone, Copy, Debug, PartialEq, Eq, Structural)]
pub enum Shown {
    /// The text itself.
    Text,
    /// The placeholder, in the placeholder's attributes, with the cursor at
    /// the start.
    Placeholder,
}

/// What a widget with a placeholder shows: the placeholder while its text
/// is empty and the user has not turned to it, the text otherwise.
pub open spec fn shown_for(text_is_empty: bool, engaged: bool) -> Shown {
    if text_is_empty && !engaged {
        Shown::Placeholder
    } else {
        Shown::Text
    }
}

/// Decides, for one frame, whether a widget shows its placeholder. The
/// placeholder never stands in for text that is there, goes the moment the
/// user focuses the field or types into it (`engaged`), and comes back the
/// moment the field is empty again and left alone. With the decision comes
/// the cursor to draw: at the start of the line while the placeholder is
/// shown, the widget's own otherwise.
pub fn show_placeholder(text_is_empty: bool, engaged: bool, cursor: Cursor) -> (out: (
    Shown,
    Cursor,
))
    ensures
        out.0 == shown_for(text_is_empty, engaged),
        out.1 == (if out.0 == Shown::Placeholder {
            Cursor { line: cursor.line, index: 0, affinity: cursor.affinity }
        } else {
            cursor
        }),
{
    if text_is_empty && !engaged {
        (Shown::Placeholder, Cursor { line: cursor.line, index: 0, affinity: cursor.affinity })
    } else {
        (Shown::Text, cursor)
    }
}

/// Decides whether the shown text must be replaced by the widget's real,
/// empty text: that is so exactly where the placeholder was shown and is to
/// be shown no longer.
pub fn restore_placeholder_text(was: Shown, text_is_empty: bool, engaged: bool) -> (clear: bool)
    ensures
        clear == (was == Shown::Placeholder && shown_for(text_is_empty, engaged) == Shown::Text),
{
    match was {
        Shown::Placeholder => !(text_is_empty && !engaged),
        Shown::Text => false,
    }
}

} // verus!
