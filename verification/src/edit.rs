use crate::line::line_bytes;
use crate::line::line_fits;
use crate::line::line_prefix;
use crate::line::line_suffix;
use crate::text::line_view;
use crate::text::lines_view;
use crate::text::Line;
use crate::text::LineView;
use cosmic_text::AttrsOwned;
use vstd::prelude::*;

verus! {

/// The parts of a text between its line breaks: one more than it has
/// breaks.
pub open spec fn pieces(s: Seq<char>) -> Seq<Seq<char>>
    decreases s.len(),
{
    if s.len() == 0 {
        seq![Seq::empty()]
    } else {
        let head = pieces(s.drop_last());
        if s.last() == '\n' {
            head.push(Seq::empty())
        } else {
            head.drop_last().push(head.last().push(s.last()))
        }
    }
}

pub proof fn lemma_pieces_nonempty(s: Seq<char>)
    ensures
        pieces(s).len() >= 1,
    decreases s.len(),
{
    if s.len() > 0 {
        lemma_pieces_nonempty(s.drop_last());
    }
}

/// The lines that stand where text was replaced: what was left of the
/// range, the new text in runs of its own, and what was right of the range.
/// Each line break in the new text starts a line. Where nothing is put in,
/// the two sides are joined and no run is added.
pub open spec fn spliced(left: LineView, s: Seq<char>, attrs: AttrsOwned, right: LineView) -> Seq<
    LineView,
> {
    let p = pieces(s);
    if s.len() == 0 {
        seq![left + right]
    } else if p.len() == 1 {
        seq![left.push((p[0], attrs)) + right]
    } else {
        seq![left.push((p[0], attrs))] + Seq::new(
            (p.len() - 2) as nat,
            |i: int| seq![(p[i + 1], attrs)],
        ) + seq![seq![(p.last(), attrs)] + right]
    }
}

/// The lines after the text between two places was replaced. A place is a
/// line and a character position in it; `from` does not lie after `to`.
pub open spec fn replaced(
    lines: Seq<LineView>,
    from: (int, int),
    to: (int, int),
    s: Seq<char>,
    attrs: AttrsOwned,
) -> Seq<LineView> {
    lines.take(from.0) + spliced(
        line_prefix(lines[from.0], from.1),
        s,
        attrs,
        line_suffix(lines[to.0], to.1),
    ) + lines.skip(to.0 + 1)
}

/// The views of strings.
pub open spec fn strings_view(parts: Vec<String>) -> Seq<Seq<char>> {
    parts@.map_values(|part: String| part@)
}

/// Splits a text at its line breaks.
pub fn split_text(s: &str) -> (parts: Vec<String>)
    ensures
        strings_view(parts) == pieces(s@),
        parts@.len() >= 1,
{
    let chars = crate::text::chars_of(s);
    let mut parts: Vec<String> = Vec::new();
    let mut current = String::new();
    let mut i: usize = 0;
    proof {
        assert(s@.take(0) =~= Seq::<char>::empty());
        assert(strings_view(parts).push(current@) =~= pieces(s@.take(0)));
    }
    while i < chars.len()
        invariant
            i <= chars.len(),
            chars@ == s@,
            strings_view(parts).push(current@) == pieces(s@.take(i as int)),
        decreases chars.len() - i,
    {
        let ghost before = strings_view(parts);
        let ghost text = current@;
        proof {
            assert(s@.take(i + 1).drop_last() =~= s@.take(i as int));
            assert(before.push(text).drop_last() =~= before);
        }
        let c = chars[i];
        if c == '\n' {
            parts.push(current);
            current = String::new();
            assert(strings_view(parts) =~= before.push(text));
        } else {
            current.push(c);
        }
        i = i + 1;
    }
    proof {
        assert(s@.take(i as int) =~= s@);
    }
    let ghost before = strings_view(parts);
    let ghost text = current@;
    parts.push(current);
    assert(strings_view(parts) =~= before.push(text));
    parts
}

fn single_run(text: &String, attrs: &AttrsOwned) -> (line: Line)
    ensures
        line_view(line) == seq![(text@, *attrs)],
{
    let mut line: Line = Vec::new();
    line.push((text.clone(), attrs.clone()));
    assert(line_view(line) =~= seq![(text@, *attrs)]);
    line
}

fn join(left: Line, right: Line) -> (line: Line)
    ensures
        line_view(line) == line_view(left) + line_view(right),
{
    let mut line = left;
    let mut rest = right;
    line.append(&mut rest);
    assert(line_view(line) =~= line_view(left) + line_view(right));
    line
}

/// Builds the lines that stand where text is replaced.
pub fn splice(left: Line, s: &str, attrs: &AttrsOwned, right: Line) -> (middle: Vec<Line>)
    ensures
        lines_view(middle) == spliced(line_view(left), s@, *attrs, line_view(right)),
        middle@.len() >= 1,
{
    let parts = split_text(s);
    let n = parts.len();
    let ghost p = pieces(s@);
    let ghost lv = line_view(left);
    let ghost rv = line_view(right);
    let mut middle: Vec<Line> = Vec::new();
    proof {
        assert(forall|i: int| 0 <= i < n ==> p[i] == #[trigger] parts@[i]@);
    }
    if s.unicode_len() == 0 {
        let line = join(left, right);
        middle.push(line);
        assert(lines_view(middle) =~= seq![lv + rv]);
        return middle;
    }
    let mut first = left;
    first.push((parts[0].clone(), attrs.clone()));
    assert(line_view(first) =~= lv.push((p[0], *attrs)));
    if n == 1 {
        let line = join(first, right);
        middle.push(line);
        assert(lines_view(middle) =~= seq![lv.push((p[0], *attrs)) + rv]);
        return middle;
    }
    middle.push(first);
    let ghost head: Seq<LineView> = seq![lv.push((p[0], *attrs))];
    assert(lines_view(middle) =~= head + Seq::new(0, |i: int| seq![(p[i + 1], *attrs)]));
    let mut j: usize = 1;
    while j < n - 1
        invariant
            1 <= j <= n - 1,
            n == parts@.len(),
            p == pieces(s@),
            forall|i: int| 0 <= i < n ==> p[i] == #[trigger] parts@[i]@,
            head == seq![lv.push((p[0], *attrs))],
            lines_view(middle) == head + Seq::new(
                (j - 1) as nat,
                |i: int| seq![(p[i + 1], *attrs)],
            ),
        decreases n - j,
    {
        let ghost old_middle = lines_view(middle);
        let line = single_run(&parts[j], attrs);
        middle.push(line);
        proof {
            let run: LineView = seq![(p[j as int], *attrs)];
            assert(line_view(line) == run);
            assert(lines_view(middle) =~= old_middle.push(run));
            assert(old_middle.push(run) =~= head + Seq::new(
                j as nat,
                |i: int| seq![(p[i + 1], *attrs)],
            ));
        }
        j = j + 1;
        assert(lines_view(middle) =~= head + Seq::new(
            (j - 1) as nat,
            |i: int| seq![(p[i + 1], *attrs)],
        ));
    }
    let last = join(single_run(&parts[n - 1], attrs), right);
    let ghost old_middle = lines_view(middle);
    middle.push(last);
    assert(lines_view(middle) =~= old_middle.push(seq![(p.last(), *attrs)] + rv));
    assert(lines_view(middle) =~= spliced(lv, s@, *attrs, rv));
    middle
}

/// Puts lines in the place of the lines `from` to `to`, both included.
pub fn put_lines(lines: &mut Vec<Line>, from: usize, to: usize, middle: Vec<Line>)
    requires
        from <= to < old(lines)@.len(),
    ensures
        lines_view(*final(lines)) == lines_view(*old(lines)).take(from as int) + lines_view(middle)
            + lines_view(*old(lines)).skip(to + 1),
{
    let count = lines.len();
    let mut tail = lines.split_off(to + 1);
    lines.truncate(from);
    let mut middle = middle;
    let ghost head = lines@;
    let ghost mid = middle@;
    let ghost rest = tail@;
    lines.append(&mut middle);
    lines.append(&mut tail);
    proof {
        assert(lines@ =~= head + mid + rest);
        assert(head =~= old(lines)@.take(from as int));
        assert(rest =~= old(lines)@.skip(to + 1));
        assert(lines_view(*lines) =~= lines_view(*old(lines)).take(from as int) + mid.map_values(
            |line: Line| line_view(line),
        ) + lines_view(*old(lines)).skip(to + 1));
    }
}

/// Whether every one of the lines can be addressed by byte indices.
pub fn all_fit(lines: &Vec<Line>) -> (yes: bool)
    ensures
        yes == (forall|i: int| 0 <= i < lines@.len() ==> line_fits(#[trigger] lines_view(*lines)[i])),
{
    let mut i: usize = 0;
    while i < lines.len()
        invariant
            i <= lines.len(),
            forall|k: int| 0 <= k < i ==> line_fits(#[trigger] lines_view(*lines)[k]),
        decreases lines.len() - i,
    {
        assert(lines_view(*lines)[i as int] == line_view(lines@[i as int]));
        if line_bytes(&lines[i]).is_none() {
            return false;
        }
        i = i + 1;
    }
    true
}

} // verus!
