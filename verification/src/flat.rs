use crate::buffer::all_lines_fit;
use crate::buffer::joined;
use crate::buffer::lines_of;
use crate::cursor::byte_len;
use crate::cursor::utf8_len;
use crate::edit::lemma_pieces_nonempty;
use crate::edit::pieces;
use crate::edit::replaced;
use crate::edit::spliced;
use crate::line::lemma_byte_len_concat;
use crate::line::lemma_line_split_text;
use crate::line::lemma_line_text_concat;
use crate::line::lemma_line_text_push;
use crate::line::line_prefix;
use crate::line::line_suffix;
use crate::text::after_line_start;
use crate::text::clipped_chars;
use crate::text::first_chars;
use crate::text::kept_chars;
use crate::text::line_end;
use crate::text::line_text;
use crate::text::trimmed_lines;
use crate::text::trimmed_multi_style;
use crate::text::trimmed_one_style;
use crate::text::trimmed_runs;
use crate::text::Budget;
use crate::text::LineView;
use crate::text::RunView;
use crate::text::TextView;
use cosmic_text::AttrsOwned;
use vstd::prelude::*;

verus! {

/// The texts of lines, each set off by a line break before it.
pub open spec fn broken(lines: Seq<LineView>) -> Seq<char>
    decreases lines.len(),
{
    if lines.len() == 0 {
        Seq::empty()
    } else {
        broken(lines.drop_last()).push('\n') + line_text(lines.last())
    }
}

/// Texts, each set off by a line break before it.
pub open spec fn glued(parts: Seq<Seq<char>>) -> Seq<char>
    decreases parts.len(),
{
    if parts.len() == 0 {
        Seq::empty()
    } else {
        glued(parts.drop_last()).push('\n') + parts.last()
    }
}

/// Where a place lies in the whole text: the index of the character that
/// stands at position `p.1` of line `p.0` in the lines joined by line
/// breaks.
pub open spec fn flat(lines: Seq<LineView>, p: (int, int)) -> int {
    broken(lines.take(p.0)).len() + p.1
}

pub proof fn lemma_broken_len(lines: Seq<LineView>)
    ensures
        broken(lines).len() >= lines.len(),
    decreases lines.len(),
{
    if lines.len() > 0 {
        lemma_broken_len(lines.drop_last());
    }
}

/// The joined text is the broken text without its first line break.
pub proof fn lemma_joined_is_broken(lines: Seq<LineView>)
    requires
        lines.len() >= 1,
    ensures
        joined(lines) == broken(lines).skip(1),
    decreases lines.len(),
{
    let rest = lines.drop_last();
    if lines.len() == 1 {
        assert(broken(rest) =~= Seq::<char>::empty());
        assert(lines.last() == lines[0]);
        assert((Seq::<char>::empty().push('\n') + line_text(lines[0])).skip(1) =~= line_text(
            lines[0],
        ));
    } else {
        lemma_joined_is_broken(rest);
        lemma_broken_len(rest);
        assert((broken(rest).push('\n') + line_text(lines.last())).skip(1) =~= broken(rest).skip(
            1,
        ).push('\n') + line_text(lines.last()));
    }
}

pub proof fn lemma_broken_concat(a: Seq<LineView>, b: Seq<LineView>)
    ensures
        broken(a + b) == broken(a) + broken(b),
    decreases b.len(),
{
    if b.len() == 0 {
        assert(a + b =~= a);
        assert(broken(a) + broken(b) =~= broken(a));
    } else {
        lemma_broken_concat(a, b.drop_last());
        assert((a + b).drop_last() =~= a + b.drop_last());
        assert((a + b).last() == b.last());
        assert((broken(a) + broken(b.drop_last())).push('\n') + line_text(b.last()) =~= broken(a)
            + (broken(b.drop_last()).push('\n') + line_text(b.last())));
    }
}

pub proof fn lemma_broken_one(line: LineView)
    ensures
        broken(seq![line]) == seq!['\n'] + line_text(line),
{
    let one: Seq<LineView> = seq![line];
    assert(one.drop_last() =~= Seq::<LineView>::empty());
    assert(broken(one.drop_last()) =~= Seq::<char>::empty());
    assert(one.last() == line);
    assert(Seq::<char>::empty().push('\n') + line_text(line) =~= seq!['\n'] + line_text(line));
}

pub proof fn lemma_glued_concat(a: Seq<Seq<char>>, b: Seq<Seq<char>>)
    ensures
        glued(a + b) == glued(a) + glued(b),
    decreases b.len(),
{
    if b.len() == 0 {
        assert(a + b =~= a);
        assert(glued(a) + glued(b) =~= glued(a));
    } else {
        lemma_glued_concat(a, b.drop_last());
        assert((a + b).drop_last() =~= a + b.drop_last());
        assert((a + b).last() == b.last());
        assert((glued(a) + glued(b.drop_last())).push('\n') + b.last() =~= glued(a) + (glued(
            b.drop_last(),
        ).push('\n') + b.last()));
    }
}

pub proof fn lemma_glued_one(part: Seq<char>)
    ensures
        glued(seq![part]) == seq!['\n'] + part,
{
    let one: Seq<Seq<char>> = seq![part];
    assert(one.drop_last() =~= Seq::<Seq<char>>::empty());
    assert(glued(one.drop_last()) =~= Seq::<char>::empty());
    assert(one.last() == part);
    assert(Seq::<char>::empty().push('\n') + part =~= seq!['\n'] + part);
}

/// The pieces of a text, glued by line breaks, are the text.
pub proof fn lemma_glued_pieces(s: Seq<char>)
    ensures
        glued(pieces(s)) == seq!['\n'] + s,
    decreases s.len(),
{
    if s.len() == 0 {
        lemma_glued_one(Seq::<char>::empty());
        assert(seq!['\n'] + Seq::<char>::empty() =~= seq!['\n'] + s);
    } else {
        let t = s.drop_last();
        let head = pieces(t);
        lemma_glued_pieces(t);
        lemma_pieces_nonempty(t);
        if s.last() == '\n' {
            let p = head.push(Seq::<char>::empty());
            assert(p.drop_last() =~= head);
            assert(glued(head).push('\n') + Seq::<char>::empty() =~= seq!['\n'] + s);
        } else {
            let p = head.drop_last().push(head.last().push(s.last()));
            assert(p.drop_last() =~= head.drop_last());
            assert(glued(head.drop_last()).push('\n') + head.last().push(s.last()) =~= (glued(
                head.drop_last(),
            ).push('\n') + head.last()).push(s.last()));
            assert((seq!['\n'] + t).push(s.last()) =~= seq!['\n'] + s);
        }
    }
}

/// Lines that hold the given texts, broken, are the texts glued.
pub proof fn lemma_broken_is_glued(lines: Seq<LineView>, parts: Seq<Seq<char>>)
    requires
        lines.len() == parts.len(),
        forall|i: int| 0 <= i < lines.len() ==> line_text(#[trigger] lines[i]) == parts[i],
    ensures
        broken(lines) == glued(parts),
    decreases lines.len(),
{
    if lines.len() > 0 {
        lemma_broken_is_glued(lines.drop_last(), parts.drop_last());
    }
}

/// The lines that stand where text was replaced hold, in the whole, the
/// text on the left, the new text, and the text on the right.
#[verifier::rlimit(60)]
pub proof fn lemma_broken_spliced(left: LineView, s: Seq<char>, attrs: AttrsOwned, right: LineView)
    ensures
        broken(spliced(left, s, attrs, right)) == seq!['\n'] + line_text(left) + s + line_text(
            right,
        ),
{
    let p = pieces(s);
    let m = spliced(left, s, attrs, right);
    let want = seq!['\n'] + line_text(left) + s + line_text(right);
    lemma_pieces_nonempty(s);
    lemma_glued_pieces(s);
    if s.len() == 0 {
        lemma_broken_one(left + right);
        lemma_line_text_concat(left, right);
        assert(seq!['\n'] + (line_text(left) + line_text(right)) =~= want);
    } else if p.len() == 1 {
        assert(p =~= seq![p[0]]);
        lemma_glued_one(p[0]);
        assert((seq!['\n'] + p[0]).skip(1) =~= p[0]);
        assert((seq!['\n'] + s).skip(1) =~= s);
        assert(p[0] == s);
        let line = left.push((p[0], attrs)) + right;
        lemma_broken_one(line);
        lemma_line_text_push(left, (p[0], attrs));
        lemma_line_text_concat(left.push((p[0], attrs)), right);
        assert(seq!['\n'] + ((line_text(left) + p[0]) + line_text(right)) =~= want);
    } else {
        let n = p.len() as int;
        let first = left.push((p[0], attrs));
        let only: LineView = seq![(p.last(), attrs)];
        let last = only + right;
        let mids = Seq::new((n - 2) as nat, |i: int| seq![(p[i + 1], attrs)]);
        let inner = p.subrange(1, n - 1);
        assert(m == seq![first] + mids + seq![last]);
        assert forall|i: int| 0 <= i < mids.len() implies line_text(#[trigger] mids[i])
            == inner[i] by {
            let run: LineView = seq![(p[i + 1], attrs)];
            assert(run =~= Seq::<RunView>::empty().push((p[i + 1], attrs)));
            lemma_line_text_push(Seq::<RunView>::empty(), (p[i + 1], attrs));
            assert(line_text(run) =~= p[i + 1]);
        }
        lemma_broken_is_glued(mids, inner);
        lemma_broken_concat(seq![first], mids);
        lemma_broken_concat(seq![first] + mids, seq![last]);
        lemma_broken_one(first);
        lemma_broken_one(last);
        lemma_line_text_push(left, (p[0], attrs));
        assert(only =~= Seq::<RunView>::empty().push((p.last(), attrs)));
        lemma_line_text_push(Seq::<RunView>::empty(), (p.last(), attrs));
        assert(line_text(only) =~= p.last());
        lemma_line_text_concat(only, right);
        assert(p =~= seq![p[0]] + inner + seq![p.last()]);
        lemma_glued_concat(seq![p[0]], inner);
        lemma_glued_concat(seq![p[0]] + inner, seq![p.last()]);
        lemma_glued_one(p[0]);
        lemma_glued_one(p.last());
        let middle = glued(inner);
        assert(seq!['\n'] + s == (seq!['\n'] + p[0]) + middle + (seq!['\n'] + p.last()));
        assert(((seq!['\n'] + p[0]) + middle + (seq!['\n'] + p.last())).skip(1) =~= p[0] + middle
            + (seq!['\n'] + p.last()));
        assert((seq!['\n'] + s).skip(1) =~= s);
        assert(s == p[0] + middle + (seq!['\n'] + p.last()));
        assert(broken(m) =~= (seq!['\n'] + (line_text(left) + p[0])) + middle + (seq!['\n'] + (
        p.last() + line_text(right))));
        assert((seq!['\n'] + (line_text(left) + p[0])) + middle + (seq!['\n'] + (p.last()
            + line_text(right))) =~= seq!['\n'] + line_text(left) + (p[0] + middle + (seq!['\n']
            + p.last())) + line_text(right));
    }
}

/// The broken text around one line.
pub proof fn lemma_broken_around(lines: Seq<LineView>, l: int)
    requires
        0 <= l < lines.len(),
    ensures
        broken(lines) == broken(lines.take(l)) + (seq!['\n'] + line_text(lines[l])) + broken(
            lines.skip(l + 1),
        ),
{
    let head = lines.take(l);
    let tail = lines.skip(l + 1);
    assert(lines =~= head + seq![lines[l]] + tail);
    lemma_broken_concat(head, seq![lines[l]]);
    lemma_broken_concat(head + seq![lines[l]], tail);
    lemma_broken_one(lines[l]);
}

/// The broken text before a later line holds the earlier line whole.
pub proof fn lemma_broken_before(lines: Seq<LineView>, l: int, m: int)
    requires
        0 <= l < m <= lines.len(),
    ensures
        broken(lines.take(m)).len() >= broken(lines.take(l)).len() + 1 + line_text(lines[l]).len(),
{
    let upto = lines.take(m);
    lemma_broken_around(upto, l);
    assert(upto.take(l) =~= lines.take(l));
    assert(upto[l] == lines[l]);
}

proof fn lemma_cut_before(h: Seq<char>, a: Seq<char>, r: Seq<char>, k: int)
    requires
        0 <= k <= a.len(),
    ensures
        (h + (seq!['\n'] + a) + r).skip(1).take(h.len() + k) == (h + seq!['\n'] + a.take(k)).skip(
            1,
        ),
{
    assert((h + (seq!['\n'] + a) + r).skip(1).take(h.len() + k) =~= (h + seq!['\n'] + a.take(
        k,
    )).skip(1));
}

proof fn lemma_cut_after(u: Seq<char>, b: Seq<char>, t: Seq<char>, k: int)
    requires
        0 <= k <= b.len(),
    ensures
        (u + (seq!['\n'] + b) + t).skip(1).skip(u.len() + k) == b.skip(k) + t,
{
    assert((u + (seq!['\n'] + b) + t).skip(1).skip(u.len() + k) =~= b.skip(k) + t);
}

proof fn lemma_cut_new(h: Seq<char>, x: Seq<char>, s: Seq<char>, y: Seq<char>, t: Seq<char>)
    ensures
        (h + (seq!['\n'] + x + s + y) + t).skip(1) == (h + seq!['\n'] + x).skip(1) + s + (y + t),
{
    assert((h + (seq!['\n'] + x + s + y) + t).skip(1) =~= (h + seq!['\n'] + x).skip(1) + s + (y
        + t));
}

/// The broken text after the text between two places was replaced.
pub proof fn lemma_broken_replaced(
    lines: Seq<LineView>,
    from: (int, int),
    to: (int, int),
    s: Seq<char>,
    attrs: AttrsOwned,
)
    requires
        0 <= from.0 <= to.0 < lines.len(),
        0 <= from.1 <= line_text(lines[from.0]).len(),
        0 <= to.1 <= line_text(lines[to.0]).len(),
    ensures
        replaced(lines, from, to, s, attrs).len() >= 1,
        broken(replaced(lines, from, to, s, attrs)) == broken(lines.take(from.0)) + (seq!['\n']
            + line_text(lines[from.0]).take(from.1) + s + line_text(lines[to.0]).skip(to.1))
            + broken(lines.skip(to.0 + 1)),
{
    let left = line_prefix(lines[from.0], from.1);
    let right = line_suffix(lines[to.0], to.1);
    let m = spliced(left, s, attrs, right);
    let head = lines.take(from.0);
    let tail = lines.skip(to.0 + 1);
    lemma_line_split_text(lines[from.0], from.1);
    lemma_line_split_text(lines[to.0], to.1);
    lemma_broken_spliced(left, s, attrs, right);
    lemma_broken_concat(head, m);
    lemma_broken_concat(head + m, tail);
    lemma_pieces_nonempty(s);
}

/// What an edit does to the whole text: the text after the edit is the text
/// before it with the characters between the two places replaced by the
/// new text. This holds of insertion, where the two places are one, of
/// deletion, where the new text is empty, and of typing over a selection.
pub proof fn lemma_replaced_text(
    lines: Seq<LineView>,
    from: (int, int),
    to: (int, int),
    s: Seq<char>,
    attrs: AttrsOwned,
)
    requires
        0 <= from.0 <= to.0 < lines.len(),
        0 <= from.1 <= line_text(lines[from.0]).len(),
        0 <= to.1 <= line_text(lines[to.0]).len(),
        from.0 < to.0 || from.1 <= to.1,
    ensures
        0 <= flat(lines, from) <= flat(lines, to) <= joined(lines).len(),
        joined(replaced(lines, from, to, s, attrs)) == joined(lines).take(flat(lines, from)) + s
            + joined(lines).skip(flat(lines, to)),
{
    let new = replaced(lines, from, to, s, attrs);
    let a = line_text(lines[from.0]);
    let b = line_text(lines[to.0]);
    let h = broken(lines.take(from.0));
    let u = broken(lines.take(to.0));
    let t = broken(lines.skip(to.0 + 1));
    let r = broken(lines.skip(from.0 + 1));
    lemma_broken_around(lines, from.0);
    lemma_broken_around(lines, to.0);
    if from.0 < to.0 {
        lemma_broken_before(lines, from.0, to.0);
    }
    lemma_broken_replaced(lines, from, to, s, attrs);
    lemma_joined_is_broken(lines);
    lemma_joined_is_broken(new);
    lemma_cut_before(h, a, r, from.1);
    lemma_cut_after(u, b, t, to.1);
    lemma_cut_new(h, a.take(from.1), s, b.skip(to.1), t);
}

/// The place at the end of the text.
pub open spec fn end_place(lines: Seq<LineView>) -> (int, int) {
    (lines.len() - 1, line_text(lines.last()).len() as int)
}

/// Text put in at the end of the text is appended to it.
pub proof fn lemma_insert_at_end(lines: Seq<LineView>, s: Seq<char>, attrs: AttrsOwned)
    requires
        lines.len() >= 1,
    ensures
        joined(replaced(lines, end_place(lines), end_place(lines), s, attrs)) == joined(lines) + s,
{
    let end = end_place(lines);
    lemma_replaced_text(lines, end, end, s, attrs);
    lemma_broken_around(lines, lines.len() - 1);
    lemma_joined_is_broken(lines);
    assert(lines.skip(lines.len() as int) =~= Seq::<LineView>::empty());
    let whole = joined(lines);
    assert(flat(lines, end) == whole.len());
    assert(whole.take(whole.len() as int) =~= whole);
    assert(whole.skip(whole.len() as int) =~= Seq::<char>::empty());
    assert(whole + s + Seq::<char>::empty() =~= whole + s);
}

/// The lines that a buffer makes of a text in one style hold that text,
/// and each of them can be addressed by byte indices where the text can.
pub proof fn lemma_one_style_lines(s: Seq<char>, attrs: AttrsOwned)
    ensures
        lines_of(TextView::OneStyle(s), attrs).len() >= 1,
        joined(lines_of(TextView::OneStyle(s), attrs)) == s,
        byte_len(s) <= usize::MAX ==> all_lines_fit(lines_of(TextView::OneStyle(s), attrs)),
{
    let none = Seq::<RunView>::empty();
    let lines = lines_of(TextView::OneStyle(s), attrs);
    lemma_pieces_nonempty(s);
    lemma_broken_spliced(none, s, attrs, none);
    assert(line_text(none) =~= Seq::<char>::empty());
    assert(seq!['\n'] + line_text(none) + s + line_text(none) =~= seq!['\n'] + s);
    lemma_joined_is_broken(lines);
    assert((seq!['\n'] + s).skip(1) =~= s);
    let nl: Seq<char> = seq!['\n'];
    assert(nl.drop_last() =~= Seq::<char>::empty());
    assert(byte_len(nl.drop_last()) == 0);
    assert(nl.last() == '\n');
    assert(utf8_len('\n') == 1);
    assert(byte_len(nl) == 1);
    lemma_byte_len_concat(nl, s);
    assert forall|i: int| 0 <= i < lines.len() implies byte_len(line_text(#[trigger] lines[i]))
        <= byte_len(s) by {
        lemma_broken_around(lines, i);
        let before = broken(lines.take(i));
        let here = nl + line_text(lines[i]);
        let after = broken(lines.skip(i + 1));
        lemma_byte_len_concat(before, here);
        lemma_byte_len_concat(before + here, after);
        lemma_byte_len_concat(nl, line_text(lines[i]));
    }
}

/// Whether `a` is the start of `b`.
pub open spec fn starts(a: Seq<char>, b: Seq<char>) -> bool {
    a.len() <= b.len() && a == b.take(a.len() as int)
}

/// Whether the character budget is spent.
pub open spec fn spent(budget: Budget, max_chars: nat) -> bool {
    max_chars > 0 && budget.chars >= max_chars
}

/// The runs that truncation keeps of a line hold the start of the line's
/// text, and all of it unless the character budget is spent.
pub proof fn lemma_trimmed_runs_start(
    line: LineView,
    k: nat,
    start: Budget,
    max_chars: nat,
    max_lines: nat,
)
    requires
        k <= line.len(),
    ensures
        starts(
            line_text(trimmed_runs(line, k, start, max_chars, max_lines).0),
            line_text(line.take(k as int)),
        ),
        line_text(trimmed_runs(line, k, start, max_chars, max_lines).0) != line_text(
            line.take(k as int),
        ) ==> spent(trimmed_runs(line, k, start, max_chars, max_lines).1, max_chars),
    decreases k,
{
    if k == 0 {
        assert(line.take(0) =~= Seq::<RunView>::empty());
        assert(line_text(Seq::<RunView>::empty()).take(0) =~= line_text(Seq::<RunView>::empty()));
    } else {
        lemma_trimmed_runs_start(line, (k - 1) as nat, start, max_chars, max_lines);
        let (out, budget) = trimmed_runs(line, (k - 1) as nat, start, max_chars, max_lines);
        let before = line_text(line.take(k - 1));
        let run = line[k - 1].0;
        assert(line.take(k as int).drop_last() =~= line.take(k - 1));
        assert(line.take(k as int).last() == line[k - 1]);
        assert(line_text(line.take(k as int)) == before + run);
        if spent(budget, max_chars) {
            assert((before + run).take(line_text(out).len() as int) =~= before.take(
                line_text(out).len() as int,
            ));
        } else {
            let kept = kept_chars(run, budget.chars, max_chars);
            lemma_line_text_push(out, (kept, line[k - 1].1));
            assert(line_text(out) == before);
            assert((before + run).take((before + kept).len() as int) =~= before + kept);
            if kept != run {
                assert(kept.len() == max_chars - budget.chars);
            } else {
                assert(before + kept == before + run);
            }
        }
    }
}

/// The lines that truncation keeps hold the start of the text, and all of
/// it unless the walk has stopped or the character budget is spent.
pub proof fn lemma_trimmed_lines_start(
    lines: Seq<LineView>,
    k: nat,
    max_chars: nat,
    max_lines: nat,
)
    requires
        k <= lines.len(),
    ensures
        starts(
            broken(trimmed_lines(lines, k, max_chars, max_lines).0),
            broken(lines.take(k as int)),
        ),
        broken(trimmed_lines(lines, k, max_chars, max_lines).0) != broken(lines.take(k as int))
            ==> trimmed_lines(lines, k, max_chars, max_lines).2 || spent(
            trimmed_lines(lines, k, max_chars, max_lines).1,
            max_chars,
        ),
    decreases k,
{
    if k == 0 {
        assert(lines.take(0) =~= Seq::<LineView>::empty());
        assert(broken(Seq::<LineView>::empty()).take(0) =~= broken(Seq::<LineView>::empty()));
    } else {
        lemma_trimmed_lines_start(lines, (k - 1) as nat, max_chars, max_lines);
        let (out, budget, stopped) = trimmed_lines(lines, (k - 1) as nat, max_chars, max_lines);
        let before = broken(lines.take(k - 1));
        let line = lines[k - 1];
        assert(lines.take(k as int).drop_last() =~= lines.take(k - 1));
        assert(lines.take(k as int).last() == line);
        let whole = before.push('\n') + line_text(line);
        assert(broken(lines.take(k as int)) == whole);
        let entered = after_line_start(budget, max_chars, max_lines);
        if stopped || (max_lines > 0 && entered.lines >= max_lines) || (max_chars > 0
            && entered.chars >= max_chars) {
            assert(whole.take(broken(out).len() as int) =~= before.take(broken(out).len() as int));
        } else {
            assert(broken(out) == before);
            lemma_trimmed_runs_start(line, line.len(), entered, max_chars, max_lines);
            assert(line.take(line.len() as int) =~= line);
            let (runs, reached) = trimmed_runs(line, line.len(), entered, max_chars, max_lines);
            assert(out.push(runs).drop_last() =~= out);
            let kept = before.push('\n') + line_text(runs);
            assert(broken(out.push(runs)) == kept);
            assert(whole.take(kept.len() as int) =~= kept);
            if line_text(runs) == line_text(line) {
                assert(kept == whole);
            }
        }
    }
}

/// Truncation drops from the end: the text that is left of lines of styled
/// runs is the start of the text that was there.
pub proof fn lemma_trimmed_text_is_start(lines: Seq<LineView>, max_chars: nat, max_lines: nat)
    ensures
        starts(joined(trimmed_multi_style(lines, max_chars, max_lines)), joined(lines)),
{
    let kept = trimmed_multi_style(lines, max_chars, max_lines);
    if max_chars == 0 && max_lines == 0 {
        assert(joined(lines).take(joined(lines).len() as int) =~= joined(lines));
    } else {
        lemma_trimmed_lines_start(lines, lines.len(), max_chars, max_lines);
        assert(lines.take(lines.len() as int) =~= lines);
        if kept.len() == 0 {
            assert(joined(lines).take(0) =~= Seq::<char>::empty());
        } else {
            lemma_broken_len(kept);
            lemma_joined_is_broken(kept);
            lemma_joined_is_broken(lines);
            let a = broken(kept);
            let b = broken(lines);
            assert(b.skip(1).take(a.len() - 1) =~= b.take(a.len() as int).skip(1));
        }
    }
}

pub proof fn lemma_line_end_bounds(s: Seq<char>, n: nat)
    ensures
        0 <= line_end(s, n) <= s.len(),
    decreases s.len(),
{
    if s.len() > 0 {
        lemma_line_end_bounds(s.drop_last(), n);
    }
}

/// Truncation drops from the end: what is left of a text in one style is
/// the start of the text that was there.
pub proof fn lemma_trimmed_one_style_is_start(s: Seq<char>, max_chars: nat, max_lines: nat)
    ensures
        starts(trimmed_one_style(s, max_chars, max_lines), s),
{
    let cut = clipped_chars(s, max_chars);
    lemma_line_end_bounds(cut, max_lines);
    assert(s.take(s.len() as int) =~= s);
    assert(cut.take(cut.len() as int) =~= cut);
    let out = trimmed_one_style(s, max_chars, max_lines);
    assert(out =~= s.take(out.len() as int));
}

} // verus!
