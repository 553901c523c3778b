use crate::text::line_text;
use crate::text::LineView;
use vstd::prelude::*;

verus! {

/// Which side a cursor belongs to where it stands between two runs or at a
/// line wrap.
#[derive(Clone, Copy, Debug, PartialEq, Eq, Structural)]
pub enum Affinity {
    Before,
    After,
}

/// A position in a text: a line, and a byte index into that line's UTF-8.
#[derive(Clone, Copy, Debug, PartialEq, Eq, Structural)]
pub struct Cursor {
    pub line: usize,
    pub index: usize,
    pub affinity: Affinity,
}

/// A selection: from the anchor, where it began, to the active end, which
/// moves with the cursor.
#[derive(Clone, Copy, Debug, PartialEq, Eq, Structural)]
pub struct Selection {
    pub anchor: Cursor,
    pub active: Cursor,
}

impl Cursor {
    /// The cursor at the start of the text.
    pub open spec fn default_spec() -> Cursor {
        Cursor { line: 0, index: 0, affinity: Affinity::Before }
    }

    /// The cursor at a line and byte index, with affinity to what comes
    /// before it.
    pub fn new(line: usize, index: usize) -> (cursor: Cursor)
        ensures
            cursor == (Cursor { line, index, affinity: Affinity::Before }),
    {
        Cursor { line, index, affinity: Affinity::Before }
    }
}

impl Default for Cursor {
    fn default() -> (cursor: Self)
        ensures
            cursor == (Cursor { line: 0, index: 0, affinity: Affinity::Before }),
    {
        Cursor { line: 0, index: 0, affinity: Affinity::Before }
    }
}

/// The number of bytes that a character takes in UTF-8.
pub open spec fn utf8_len(c: char) -> nat {
    if (c as u32) < 0x80 {
        1
    } else if (c as u32) < 0x800 {
        2
    } else if (c as u32) < 0x1_0000 {
        3
    } else {
        4
    }
}

/// The number of bytes that a text takes in UTF-8.
pub open spec fn byte_len(s: Seq<char>) -> nat
    decreases s.len(),
{
    if s.len() == 0 {
        0
    } else {
        byte_len(s.drop_last()) + utf8_len(s.last())
    }
}

/// The byte index at which character `k` of a text starts.
pub open spec fn byte_offset(s: Seq<char>, k: int) -> nat {
    byte_len(s.take(k))
}

/// Whether a byte index falls between two characters of a text, or at one
/// of its ends.
pub open spec fn is_boundary(s: Seq<char>, index: nat) -> bool {
    exists|k: int| 0 <= k <= s.len() && #[trigger] byte_offset(s, k) == index
}

/// Whether a cursor names a line of the text and a character boundary in
/// that line.
pub open spec fn cursor_valid(lines: Seq<LineView>, cursor: Cursor) -> bool {
    cursor.line < lines.len() && is_boundary(
        line_text(lines[cursor.line as int]),
        cursor.index as nat,
    )
}

pub proof fn lemma_byte_offset_step(s: Seq<char>, k: int)
    requires
        0 <= k < s.len(),
    ensures
        byte_offset(s, k + 1) == byte_offset(s, k) + utf8_len(s[k]),
        1 <= utf8_len(s[k]) <= 4,
{
    assert(s.take(k + 1).drop_last() =~= s.take(k));
}

pub proof fn lemma_byte_offset_monotone(s: Seq<char>, i: int, j: int)
    requires
        0 <= i <= j <= s.len(),
    ensures
        byte_offset(s, i) + (j - i) <= byte_offset(s, j),
    decreases j - i,
{
    if i < j {
        lemma_byte_offset_monotone(s, i, j - 1);
        lemma_byte_offset_step(s, j - 1);
    }
}

pub proof fn lemma_byte_offset_ends(s: Seq<char>)
    ensures
        byte_offset(s, 0) == 0,
        byte_offset(s, s.len() as int) == byte_len(s),
        is_boundary(s, 0),
        is_boundary(s, byte_len(s)),
{
    assert(s.take(0) =~= Seq::<char>::empty());
    assert(s.take(s.len() as int) =~= s);
    assert(byte_offset(s, 0) == 0);
    assert(byte_offset(s, s.len() as int) == byte_len(s));
}

pub proof fn lemma_byte_len_front(s: Seq<char>)
    requires
        s.len() > 0,
    ensures
        byte_len(s) == utf8_len(s[0]) + byte_len(s.drop_first()),
    decreases s.len(),
{
    if s.len() == 1 {
        assert(s.drop_last() =~= s.drop_first());
        assert(byte_len(s.drop_first()) == 0);
    } else {
        lemma_byte_len_front(s.drop_last());
        assert(s.drop_last().drop_first() =~= s.drop_first().drop_last());
    }
}

proof fn lemma_encoded_scalar_len(c: char)
    ensures
        vstd::utf8::encode_scalar(c as u32).len() == utf8_len(c),
{
    let v = c as u32;
    vstd::utf8::char_is_scalar(c);
    if vstd::utf8::has_width_1_encoding(v) {
        assert(vstd::utf8::encode_scalar(v).len() == 1);
    } else if vstd::utf8::has_width_2_encoding(v) {
        assert(vstd::utf8::encode_scalar(v).len() == 2);
    } else if vstd::utf8::has_width_3_encoding(v) {
        assert(vstd::utf8::encode_scalar(v).len() == 3);
    } else {
        assert(vstd::utf8::has_width_4_encoding(v));
        assert(vstd::utf8::encode_scalar(v).len() == 4);
    }
}

/// The byte length of a text is the length of its UTF-8 encoding.
pub proof fn lemma_encoded_len(s: Seq<char>)
    ensures
        vstd::utf8::encode_utf8(s).len() == byte_len(s),
    decreases s.len(),
{
    if s.len() > 0 {
        lemma_byte_len_front(s);
        lemma_encoded_len(s.drop_first());
        lemma_encoded_scalar_len(s[0]);
    }
}

/// The number of bytes that a string takes.
pub fn byte_length(s: &str) -> (n: usize)
    ensures
        n == byte_len(s@),
{
    proof {
        lemma_encoded_len(s@);
    }
    s.as_bytes().len()
}

/// The number of bytes that a character takes in UTF-8.
pub fn char_width(c: char) -> (n: usize)
    ensures
        n == utf8_len(c),
        1 <= n <= 4,
{
    let v: u32 = c as u32;
    if v < 0x80 {
        1
    } else if v < 0x800 {
        2
    } else if v < 0x1_0000 {
        3
    } else {
        4
    }
}

/// The character position whose byte offset is the largest that does not
/// exceed `index`, and that offset.
pub open spec fn floor_position(s: Seq<char>, index: nat) -> int
    decreases s.len(),
{
    if s.len() == 0 {
        0
    } else if byte_len(s) <= index {
        s.len() as int
    } else {
        floor_position(s.drop_last(), index)
    }
}

pub proof fn lemma_floor_position(s: Seq<char>, index: nat)
    ensures
        0 <= floor_position(s, index) <= s.len(),
        byte_offset(s, floor_position(s, index)) <= index,
        floor_position(s, index) < s.len() ==> index < byte_offset(
            s,
            floor_position(s, index) + 1,
        ),
        is_boundary(s, index) ==> byte_offset(s, floor_position(s, index)) == index,
    decreases s.len(),
{
    lemma_byte_offset_ends(s);
    if s.len() == 0 {
    } else if byte_len(s) <= index {
        if is_boundary(s, index) {
            let k = choose|k: int| 0 <= k <= s.len() && #[trigger] byte_offset(s, k) == index;
            lemma_byte_offset_monotone(s, k, s.len() as int);
        }
    } else {
        let t = s.drop_last();
        lemma_floor_position(t, index);
        let p = floor_position(t, index);
        assert(t.take(p) =~= s.take(p));
        if p < t.len() {
            assert(t.take(p + 1) =~= s.take(p + 1));
        } else {
            assert(s.take(p + 1) =~= s);
            assert(t.take(p) =~= t);
        }
        if is_boundary(s, index) {
            let k = choose|k: int| 0 <= k <= s.len() && #[trigger] byte_offset(s, k) == index;
            assert(k < s.len());
            assert(t.take(k) =~= s.take(k));
            assert(byte_offset(t, k) == index);
        }
    }
}

/// Finds the character position whose byte offset is the largest that does
/// not exceed `index`, and returns it with that offset: the nearest
/// character boundary at or before a byte index.
pub fn floor_boundary(chars: &Vec<char>, index: usize) -> (found: (usize, usize))
    ensures
        found.0 == floor_position(chars@, index as nat),
        found.1 == byte_offset(chars@, found.0 as int),
        found.0 <= chars@.len(),
        found.1 <= index,
        is_boundary(chars@, found.1 as nat),
        is_boundary(chars@, index as nat) ==> found.1 == index,
{
    let mut k: usize = 0;
    let mut offset: usize = 0;
    proof {
        lemma_byte_offset_ends(chars@);
        lemma_floor_position(chars@, index as nat);
    }
    while k < chars.len()
        invariant
            k <= chars.len(),
            offset == byte_offset(chars@, k as int),
            offset <= index,
            k <= floor_position(chars@, index as nat),
        decreases chars.len() - k,
    {
        let w = char_width(chars[k]);
        proof {
            lemma_byte_offset_step(chars@, k as int);
            lemma_floor_position(chars@, index as nat);
            let p = floor_position(chars@, index as nat);
            if offset + w <= index && p <= k {
                assert(p == k);
            }
            if offset + w > index && p > k {
                lemma_byte_offset_monotone(chars@, k + 1, p);
            }
        }
        if w > index - offset {
            return (k, offset);
        }
        offset = offset + w;
        k = k + 1;
    }
    proof {
        lemma_floor_position(chars@, index as nat);
    }
    (k, offset)
}

} // verus!
