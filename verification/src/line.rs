use crate::cursor::byte_len;
use crate::cursor::byte_length;
use crate::cursor::lemma_byte_offset_ends;
use crate::cursor::lemma_byte_offset_monotone;
use crate::text::chars_of;
use crate::text::after_line_start;
use crate::text::first_chars;
use crate::text::kept_chars;
use crate::text::line_text;
use crate::text::line_view;
use crate::text::prefix_of;
use crate::text::run_view;
use crate::text::trimmed_lines;
use crate::text::trimmed_runs;
use crate::text::Budget;
use crate::text::Line;
use crate::text::LineView;
use crate::text::RunView;
use vstd::prelude::*;
use vstd::string::StrSliceExecFns;
use vstd::string::StringExecFns;

verus! {

/// Whether a line's text can be addressed by byte indices.
pub open spec fn line_fits(line: LineView) -> bool {
    byte_len(line_text(line)) <= usize::MAX
}

pub proof fn lemma_byte_len_concat(a: Seq<char>, b: Seq<char>)
    ensures
        byte_len(a + b) == byte_len(a) + byte_len(b),
    decreases b.len(),
{
    if b.len() == 0 {
        assert(a + b =~= a);
    } else {
        lemma_byte_len_concat(a, b.drop_last());
        assert((a + b).drop_last() =~= a + b.drop_last());
    }
}

/// A text has at most as many characters as bytes.
pub proof fn lemma_chars_le_bytes(s: Seq<char>)
    ensures
        s.len() <= byte_len(s),
{
    lemma_byte_offset_ends(s);
    lemma_byte_offset_monotone(s, 0, s.len() as int);
}

pub proof fn lemma_line_text_push(line: LineView, run: RunView)
    ensures
        line_text(line.push(run)) == line_text(line) + run.0,
{
    assert(line.push(run).drop_last() =~= line);
}

pub proof fn lemma_line_text_concat(a: LineView, b: LineView)
    ensures
        line_text(a + b) == line_text(a) + line_text(b),
    decreases b.len(),
{
    if b.len() == 0 {
        assert(a + b =~= a);
        assert(line_text(a) + line_text(b) =~= line_text(a));
    } else {
        lemma_line_text_concat(a, b.drop_last());
        assert((a + b).drop_last() =~= a + b.drop_last());
        assert((line_text(a) + line_text(b.drop_last())) + b.last().0 =~= line_text(a) + (
        line_text(b.drop_last()) + b.last().0));
    }
}

/// The text of a line's first runs is the start of the line's text.
pub proof fn lemma_line_text_take(line: LineView, j: int)
    requires
        0 <= j <= line.len(),
    ensures
        line_text(line.take(j)).len() <= line_text(line).len(),
        line_text(line.take(j)) == line_text(line).take(line_text(line.take(j)).len() as int),
        j < line.len() ==> line_text(line.take(j + 1)) == line_text(line.take(j)) + line[j].0,
{
    assert(line =~= line.take(j) + line.skip(j));
    lemma_line_text_concat(line.take(j), line.skip(j));
    assert((line_text(line.take(j)) + line_text(line.skip(j))).take(
        line_text(line.take(j)).len() as int,
    ) =~= line_text(line.take(j)));
    if j < line.len() {
        assert(line.take(j + 1) =~= line.take(j).push(line[j]));
        lemma_line_text_push(line.take(j), line[j]);
    }
}

/// The part of a line before character `k`: the runs that end at or before
/// it, and the start of the run that it falls into.
pub open spec fn line_prefix(line: LineView, k: int) -> LineView
    decreases line.len(),
{
    if line.len() == 0 {
        Seq::empty()
    } else {
        let head = line.drop_last();
        let before = line_text(head).len();
        if k <= before {
            line_prefix(head, k)
        } else {
            head.push((first_chars(line.last().0, (k - before) as nat), line.last().1))
        }
    }
}

/// The part of a line from character `k` on: the rest of the run that it
/// falls into, and the runs that start at or after it.
pub open spec fn line_suffix(line: LineView, k: int) -> LineView
    decreases line.len(),
{
    if line.len() == 0 {
        Seq::empty()
    } else {
        let head = line.drop_last();
        let before = line_text(head).len();
        if k <= before {
            line_suffix(head, k).push(line.last())
        } else if k < before + line.last().0.len() {
            seq![(line.last().0.skip(k - before), line.last().1)]
        } else {
            Seq::empty()
        }
    }
}

/// The two parts of a line hold the line's text, cut at `k`.
pub proof fn lemma_line_split_text(line: LineView, k: int)
    requires
        0 <= k <= line_text(line).len(),
    ensures
        line_text(line_prefix(line, k)) == line_text(line).take(k),
        line_text(line_suffix(line, k)) == line_text(line).skip(k),
    decreases line.len(),
{
    let text = line_text(line);
    if line.len() == 0 {
        assert(text.take(k) =~= Seq::<char>::empty());
        assert(text.skip(k) =~= Seq::<char>::empty());
    } else {
        let head = line.drop_last();
        let last = line.last();
        let before = line_text(head).len() as int;
        if k <= before {
            lemma_line_split_text(head, k);
            assert(text.take(k) =~= line_text(head).take(k));
        } else {
            let part = first_chars(last.0, (k - before) as nat);
            lemma_line_text_push(head, (part, last.1));
            assert(line_text(head) + part =~= text.take(k));
        }
        if k <= before {
            lemma_line_split_text(head, k);
            lemma_line_text_push(line_suffix(head, k), last);
            assert(text.skip(k) =~= line_text(head).skip(k) + last.0);
        } else if k < before + last.0.len() {
            let rest: LineView = seq![(last.0.skip(k - before), last.1)];
            assert(rest =~= Seq::<RunView>::empty().push((last.0.skip(k - before), last.1)));
            lemma_line_text_push(Seq::<RunView>::empty(), (last.0.skip(k - before), last.1));
            assert(line_text(rest) =~= last.0.skip(k - before));
            assert(text.skip(k) =~= last.0.skip(k - before));
        } else {
            assert(text.skip(k) =~= Seq::<char>::empty());
        }
    }
}

/// All characters of a string from the `n`-th on; none where it has fewer.
pub fn suffix_of(s: &str, n: usize) -> (out: String)
    ensures
        out@ == (if n <= s@.len() {
            s@.skip(n as int)
        } else {
            Seq::<char>::empty()
        }),
{
    let len = s.unicode_len();
    if n <= len {
        let out = String::from_str(s.substring_char(n, len));
        assert(out@ =~= s@.skip(n as int));
        out
    } else {
        String::new()
    }
}

/// The characters of a line, one by one.
pub fn line_chars(line: &Line) -> (out: Vec<char>)
    ensures
        out@ == line_text(line_view(*line)),
{
    let ghost view = line_view(*line);
    let mut out: Vec<char> = Vec::new();
    let mut j: usize = 0;
    assert(view.take(0) =~= Seq::<RunView>::empty());
    while j < line.len()
        invariant
            j <= line.len(),
            view == line_view(*line),
            out@ == line_text(view.take(j as int)),
        decreases line.len() - j,
    {
        proof {
            lemma_line_text_take(view, j as int);
            assert(view[j as int] == run_view(line@[j as int]));
        }
        let mut chars = chars_of(line[j].0.as_str());
        out.append(&mut chars);
        j = j + 1;
    }
    assert(view.take(j as int) =~= view);
    out
}

/// The byte length of a line's text, or `None` where it exceeds what a
/// byte index can hold.
pub fn line_bytes(line: &Line) -> (n: Option<usize>)
    ensures
        n is Some <==> line_fits(line_view(*line)),
        n matches Some(total) ==> total == byte_len(line_text(line_view(*line))),
{
    let ghost view = line_view(*line);
    let mut total: usize = 0;
    let mut j: usize = 0;
    assert(view.take(0) =~= Seq::<RunView>::empty());
    while j < line.len()
        invariant
            j <= line.len(),
            view == line_view(*line),
            total == byte_len(line_text(view.take(j as int))),
        decreases line.len() - j,
    {
        proof {
            lemma_line_text_take(view, j as int);
            assert(view[j as int] == run_view(line@[j as int]));
            lemma_byte_len_concat(line_text(view.take(j as int)), view[j as int].0);
        }
        let n = byte_length(line[j].0.as_str());
        match total.checked_add(n) {
            Some(sum) => {
                total = sum;
            },
            None => {
                proof {
                    lemma_line_text_take(view, j + 1);
                    assert(line_text(view) =~= line_text(view).take(
                        line_text(view.take(j + 1)).len() as int,
                    ) + line_text(view).skip(line_text(view.take(j + 1)).len() as int));
                    lemma_byte_len_concat(
                        line_text(view.take(j + 1)),
                        line_text(view).skip(line_text(view.take(j + 1)).len() as int),
                    );
                }
                return None;
            },
        }
        j = j + 1;
    }
    assert(view.take(j as int) =~= view);
    Some(total)
}

/// Splits a line at character `k` into the runs before it and the runs
/// after it. A run that `k` falls into is divided; both parts keep its
/// attributes. No run is merged with another.
pub fn split_line(line: &Line, k: usize) -> (parts: (Line, Line))
    requires
        line_fits(line_view(*line)),
    ensures
        line_view(parts.0) == line_prefix(line_view(*line), k as int),
        line_view(parts.1) == line_suffix(line_view(*line), k as int),
{
    let ghost view = line_view(*line);
    let mut left: Line = Vec::new();
    let mut right: Line = Vec::new();
    let mut before: usize = 0;
    let mut j: usize = 0;
    proof {
        assert(view.take(0) =~= Seq::<RunView>::empty());
        assert(line_view(left) =~= Seq::<RunView>::empty());
        assert(line_view(right) =~= Seq::<RunView>::empty());
        lemma_chars_le_bytes(line_text(view));
    }
    while j < line.len()
        invariant
            j <= line.len(),
            view == line_view(*line),
            line_text(view).len() <= usize::MAX,
            before == line_text(view.take(j as int)).len(),
            line_view(left) == line_prefix(view.take(j as int), k as int),
            line_view(right) == line_suffix(view.take(j as int), k as int),
        decreases line.len() - j,
    {
        let run = &line[j];
        proof {
            lemma_line_text_take(view, j as int);
            lemma_line_text_take(view, j + 1);
            assert(view[j as int] == run_view(*run));
            assert(view.take(j + 1).drop_last() =~= view.take(j as int));
            assert(view.take(j + 1).last() == view[j as int]);
        }
        let ghost old_left = left;
        let ghost old_right = right;
        let m = run.0.as_str().unicode_len();
        if k <= before {
            right.push((run.0.clone(), run.1.clone()));
            proof {
                assert(line_view(right) =~= line_view(old_right).push(run_view(*run)));
            }
        } else if k - before >= m {
            left.push((run.0.clone(), run.1.clone()));
            proof {
                assert(line_view(left) =~= line_view(old_left).push(run_view(*run)));
                lemma_prefix_past_end(view.take(j as int), k as int);
                lemma_suffix_past_end(view.take(j as int), k as int);
            }
        } else {
            left.push((prefix_of(run.0.as_str(), k - before), run.1.clone()));
            right.push((suffix_of(run.0.as_str(), k - before), run.1.clone()));
            proof {
                lemma_prefix_past_end(view.take(j as int), k as int);
                lemma_suffix_past_end(view.take(j as int), k as int);
                assert(line_view(left) =~= line_view(old_left).push(
                    (first_chars(run.0@, (k - before) as nat), run.1),
                ));
                assert(line_view(right) =~= seq![(run.0@.skip(k - before), run.1)]);
            }
        }
        before = before + m;
        j = j + 1;
    }
    assert(view.take(j as int) =~= view);
    (left, right)
}

/// Past the end of a line, the part before is the whole line.
pub proof fn lemma_prefix_past_end(line: LineView, k: int)
    requires
        k > line_text(line).len(),
    ensures
        line_prefix(line, k) == line,
{
    if line.len() > 0 {
        let head = line.drop_last();
        lemma_line_text_push(head, line.last());
        assert(head.push(line.last()) =~= line);
    } else {
        assert(line =~= Seq::<RunView>::empty());
    }
}

/// Past the end of a line, nothing comes after.
pub proof fn lemma_suffix_past_end(line: LineView, k: int)
    requires
        k > line_text(line).len(),
    ensures
        line_suffix(line, k) == Seq::<RunView>::empty(),
{
    if line.len() > 0 {
        let head = line.drop_last();
        lemma_line_text_push(head, line.last());
        assert(head.push(line.last()) =~= line);
    }
}

/// What is kept of a run's text takes no more bytes than the text.
pub proof fn lemma_kept_chars_bytes(text: Seq<char>, used: nat, max_chars: nat)
    requires
        max_chars > 0 ==> used < max_chars,
    ensures
        byte_len(kept_chars(text, used, max_chars)) <= byte_len(text),
{
    let kept = kept_chars(text, used, max_chars);
    if kept != text {
        lemma_byte_offset_monotone(text, max_chars - used, text.len() as int);
        lemma_byte_offset_ends(text);
    }
}

/// The runs that truncation keeps of a line's first `k` take no more bytes
/// than those `k` runs.
pub proof fn lemma_trimmed_runs_bytes(
    line: LineView,
    k: nat,
    start: Budget,
    max_chars: nat,
    max_lines: nat,
)
    requires
        k <= line.len(),
    ensures
        byte_len(line_text(trimmed_runs(line, k, start, max_chars, max_lines).0)) <= byte_len(
            line_text(line.take(k as int)),
        ),
    decreases k,
{
    if k == 0 {
        assert(line.take(0) =~= Seq::<RunView>::empty());
    } else {
        lemma_trimmed_runs_bytes(line, (k - 1) as nat, start, max_chars, max_lines);
        let (out, budget) = trimmed_runs(line, (k - 1) as nat, start, max_chars, max_lines);
        lemma_line_text_take(line, k - 1);
        lemma_byte_len_concat(line_text(line.take(k - 1)), line[k - 1].0);
        if !(max_chars > 0 && budget.chars >= max_chars) {
            let kept = kept_chars(line[k - 1].0, budget.chars, max_chars);
            lemma_kept_chars_bytes(line[k - 1].0, budget.chars, max_chars);
            lemma_line_text_push(out, (kept, line[k - 1].1));
            lemma_byte_len_concat(line_text(out), kept);
        }
    }
}

/// Truncation keeps every line within what byte indices can address.
pub proof fn lemma_trimmed_lines_fit(lines: Seq<LineView>, k: nat, max_chars: nat, max_lines: nat)
    requires
        k <= lines.len(),
        forall|i: int| 0 <= i < lines.len() ==> line_fits(#[trigger] lines[i]),
    ensures
        forall|i: int|
            0 <= i < trimmed_lines(lines, k, max_chars, max_lines).0.len() ==> line_fits(
                #[trigger] trimmed_lines(lines, k, max_chars, max_lines).0[i],
            ),
    decreases k,
{
    if k > 0 {
        lemma_trimmed_lines_fit(lines, (k - 1) as nat, max_chars, max_lines);
        let (out, budget, stopped) = trimmed_lines(lines, (k - 1) as nat, max_chars, max_lines);
        let entered = after_line_start(budget, max_chars, max_lines);
        let line = lines[k - 1];
        lemma_trimmed_runs_bytes(line, line.len(), entered, max_chars, max_lines);
        assert(line.take(line.len() as int) =~= line);
        assert(line_fits(line));
    }
}

} // verus!
