use cosmic_text::AttrsOwned;
use vstd::prelude::*;
use vstd::std_specs::iter::IteratorSpec;
use vstd::string::StrSliceExecFns;
use vstd::string::StringExecFns;

verus! {

/// One run of text with the attributes it is set in.
pub type Run = (String, AttrsOwned);

/// One line: its runs from left to right.
pub type Line = Vec<Run>;

/// A run as its characters and its attributes.
pub type RunView = (Seq<char>, AttrsOwned);

/// A line as the sequence of its runs.
pub type LineView = Seq<RunView>;

/// The text of a widget: one string in one style, or lines of styled runs.
#[derive(Clone, PartialEq, Debug)]
pub enum CosmicText {
    OneStyle(String),
    MultiStyle(Vec<Line>),
}

/// What a text holds, as plain sequences.
pub enum TextView {
    OneStyle(Seq<char>),
    MultiStyle(Seq<LineView>),
}

/// The form of a text: one string in one style, or lines of styled runs.
#[derive(Clone, Copy, Debug, PartialEq, Eq, Structural)]
pub enum TextForm {
    OneStyle,
    MultiStyle,
}

/// The form that a text has.
pub open spec fn form_of(text: TextView) -> TextForm {
    match text {
        TextView::OneStyle(_) => TextForm::OneStyle,
        TextView::MultiStyle(_) => TextForm::MultiStyle,
    }
}

pub open spec fn run_view(run: Run) -> RunView {
    (run.0@, run.1)
}

pub open spec fn line_view(line: Line) -> LineView {
    line@.map_values(|run: Run| run_view(run))
}

pub open spec fn lines_view(lines: Vec<Line>) -> Seq<LineView> {
    lines@.map_values(|line: Line| line_view(line))
}

impl View for CosmicText {
    type V = TextView;

    open spec fn view(&self) -> TextView {
        match self {
            CosmicText::OneStyle(s) => TextView::OneStyle(s@),
            CosmicText::MultiStyle(lines) => TextView::MultiStyle(lines_view(*lines)),
        }
    }
}

impl Default for CosmicText {
    fn default() -> (text: Self)
        ensures
            text@ == TextView::OneStyle(Seq::<char>::empty()),
    {
        CosmicText::OneStyle(String::new())
    }
}

/// `String::push`: appends one character.
pub assume_specification[ String::push ](s: &mut String, c: char)
    ensures
        final(s)@ == old(s)@.push(c),
;

/// The characters of a string, one by one.
pub fn chars_of(s: &str) -> (out: Vec<char>)
    ensures
        out@ == s@,
{
    let mut out: Vec<char> = Vec::new();
    for c in it: s.chars()
        invariant
            it.seq() == s@,
            out@ == s@.take(it.index() as int),
    {
        out.push(c);
        assert(out@ =~= s@.take(it.index() + 1));
    }
    assert(out@ =~= s@);
    out
}

/// The first `n` characters of a string, or all of it where it has fewer.
pub fn prefix_of(s: &str, n: usize) -> (out: String)
    ensures
        out@ == s@.take(
            if n <= s@.len() {
                n as int
            } else {
                s@.len() as int
            },
        ),
{
    let len = s.unicode_len();
    let keep = if n <= len {
        n
    } else {
        len
    };
    let out = String::from_str(s.substring_char(0, keep));
    assert(out@ =~= s@.take(keep as int));
    out
}

/// How many line breaks a text holds.
pub open spec fn newlines(s: Seq<char>) -> nat
    decreases s.len(),
{
    if s.len() == 0 {
        0
    } else {
        newlines(s.drop_last()) + if s.last() == '\n' {
            1nat
        } else {
            0nat
        }
    }
}

/// The length of the shortest prefix of `s` that holds `n` line breaks, or
/// the length of `s` where it holds fewer.
pub open spec fn line_end(s: Seq<char>, n: nat) -> int
    decreases s.len(),
{
    if s.len() == 0 {
        0
    } else if newlines(s.drop_last()) >= n {
        line_end(s.drop_last(), n)
    } else {
        s.len() as int
    }
}

/// The first `n` characters of a text, or all of it where it has fewer.
pub open spec fn first_chars(s: Seq<char>, n: nat) -> Seq<char> {
    if s.len() <= n {
        s
    } else {
        s.take(n as int)
    }
}

/// A text cut after `max_chars` characters; 0 sets no limit.
pub open spec fn clipped_chars(s: Seq<char>, max_chars: nat) -> Seq<char> {
    if max_chars == 0 {
        s
    } else {
        first_chars(s, max_chars)
    }
}

/// A text cut just after its `max_lines`-th line break; 0 sets no limit.
pub open spec fn clipped_lines(s: Seq<char>, max_lines: nat) -> Seq<char> {
    if max_lines == 0 {
        s
    } else {
        s.take(line_end(s, max_lines))
    }
}

/// A text in one style after truncation: first by characters, then by lines.
pub open spec fn trimmed_one_style(s: Seq<char>, max_chars: nat, max_lines: nat) -> Seq<char> {
    clipped_lines(clipped_chars(s, max_chars), max_lines)
}

/// Truncation clamps after the edit: a character appended at the end of a
/// text, followed by truncation to `max_chars` characters, gives the text
/// truncated to one character less with the character appended. This holds
/// where the text is shorter than the limit, or already has that character
/// in the limit's last place.
pub proof fn lemma_append_then_truncate(s: Seq<char>, c: char, max_chars: nat)
    requires
        max_chars >= 1,
        s.len() < max_chars || s[max_chars - 1] == c,
    ensures
        trimmed_one_style(s.push(c), max_chars, 0) == first_chars(s, (max_chars - 1) as nat).push(
            c,
        ),
{
    if s.len() >= max_chars {
        assert(s.push(c).take(max_chars as int) =~= s.take(max_chars - 1).push(c));
    }
}

pub proof fn lemma_newlines_take(s: Seq<char>, i: int)
    requires
        0 <= i < s.len(),
    ensures
        newlines(s.take(i + 1)) == newlines(s.take(i)) + if s[i] == '\n' {
            1nat
        } else {
            0nat
        },
{
    assert(s.take(i + 1).drop_last() =~= s.take(i));
}

pub proof fn lemma_newlines_monotone(s: Seq<char>, i: int, j: int)
    requires
        0 <= i <= j <= s.len(),
    ensures
        newlines(s.take(i)) <= newlines(s.take(j)),
    decreases j - i,
{
    if i < j {
        lemma_newlines_monotone(s, i, j - 1);
        lemma_newlines_take(s, j - 1);
    }
}

/// Once a prefix holds `n` line breaks, the cut lies inside that prefix.
pub proof fn lemma_line_end_prefix(s: Seq<char>, n: nat, k: int)
    requires
        0 <= k <= s.len(),
        newlines(s.take(k)) >= n,
    ensures
        line_end(s, n) == line_end(s.take(k), n),
    decreases s.len() - k,
{
    if k < s.len() {
        assert(s.drop_last() =~= s.take(s.len() - 1));
        lemma_newlines_monotone(s, k, s.len() - 1);
        assert(s.take(s.len() - 1).take(k) =~= s.take(k));
        lemma_line_end_prefix(s.take(s.len() - 1), n, k);
    } else {
        assert(s.take(k) =~= s);
    }
}

/// A text with fewer than `n` line breaks is not cut.
pub proof fn lemma_line_end_whole(s: Seq<char>, n: nat)
    requires
        newlines(s) < n,
    ensures
        line_end(s, n) == s.len(),
{
    if s.len() > 0 {
        assert(s.drop_last() =~= s.take(s.len() - 1));
        assert(s.take(s.len() as int) =~= s);
        lemma_newlines_monotone(s, s.len() - 1, s.len() as int);
    }
}

/// Cuts a text just after its `max_lines`-th line break; 0 sets no limit.
pub fn clip_lines(s: String, max_lines: usize) -> (out: String)
    ensures
        out@ == clipped_lines(s@, max_lines as nat),
{
    if max_lines == 0 {
        return s;
    }
    let chars = chars_of(s.as_str());
    let mut seen: usize = 0;
    let mut i: usize = 0;
    while i < chars.len()
        invariant
            i <= chars.len(),
            chars@ == s@,
            seen == newlines(s@.take(i as int)),
            seen < max_lines,
        decreases chars.len() - i,
    {
        proof {
            lemma_newlines_take(s@, i as int);
        }
        if chars[i] == '\n' {
            seen = seen + 1;
            if seen >= max_lines {
                proof {
                    lemma_line_end_prefix(s@, max_lines as nat, i + 1);
                    assert(s@.take(i + 1).drop_last() =~= s@.take(i as int));
                }
                return prefix_of(s.as_str(), i + 1);
            }
        }
        i = i + 1;
    }
    proof {
        assert(s@.take(i as int) =~= s@);
        lemma_line_end_whole(s@, max_lines as nat);
    }
    s
}

/// Running totals while lines of styled runs are truncated: the characters
/// and the lines counted so far.
pub struct Budget {
    pub chars: nat,
    pub lines: nat,
}

/// What is kept of a run's text when `used` characters of the budget are
/// spent; 0 sets no limit.
pub open spec fn kept_chars(text: Seq<char>, used: nat, max_chars: nat) -> Seq<char> {
    if max_chars == 0 || text.len() <= max_chars - used {
        text
    } else {
        text.take(max_chars - used)
    }
}

/// How many of a kept run's line breaks are counted: all of them until the
/// line limit is reached, and at least the first.
pub open spec fn counted_breaks(kept: Seq<char>, lines_used: nat, max_lines: nat) -> nat {
    if max_lines == 0 {
        0
    } else {
        let room = if max_lines > lines_used + 1 {
            (max_lines - lines_used) as nat
        } else {
            1nat
        };
        if newlines(kept) <= room {
            newlines(kept)
        } else {
            room
        }
    }
}

/// The totals after a run was kept. Each counted line break counts as a
/// line and, beside the run's own characters, once more as a character.
/// A total is kept only for a limit that is set.
pub open spec fn after_run(budget: Budget, kept: Seq<char>, max_chars: nat, max_lines: nat) -> Budget {
    let breaks = counted_breaks(kept, budget.lines, max_lines);
    Budget {
        chars: if max_chars > 0 {
            budget.chars + kept.len() + breaks
        } else {
            budget.chars
        },
        lines: budget.lines + breaks,
    }
}

/// The totals after a line was entered: one line more, and one character
/// more for the break that sets it off. A total is kept only for a limit
/// that is set.
pub open spec fn after_line_start(budget: Budget, max_chars: nat, max_lines: nat) -> Budget {
    Budget {
        chars: if max_chars > 0 {
            budget.chars + 1
        } else {
            budget.chars
        },
        lines: if max_lines > 0 {
            budget.lines + 1
        } else {
            budget.lines
        },
    }
}

/// The first `k` runs of a line after truncation, with the totals reached.
/// A run that starts when the character budget is spent is dropped, and so
/// are all after it.
pub open spec fn trimmed_runs(
    line: LineView,
    k: nat,
    start: Budget,
    max_chars: nat,
    max_lines: nat,
) -> (LineView, Budget)
    decreases k,
{
    if k == 0 {
        (Seq::empty(), start)
    } else {
        let (out, budget) = trimmed_runs(line, (k - 1) as nat, start, max_chars, max_lines);
        if max_chars > 0 && budget.chars >= max_chars {
            (out, budget)
        } else {
            let kept = kept_chars(line[k - 1].0, budget.chars, max_chars);
            (out.push((kept, line[k - 1].1)), after_run(budget, kept, max_chars, max_lines))
        }
    }
}

/// The first `k` lines after truncation, with the totals reached and whether
/// a limit has stopped the walk. Entering a line counts as one line and one
/// character; a line that is entered when either limit is reached is
/// dropped, and so are all after it.
pub open spec fn trimmed_lines(lines: Seq<LineView>, k: nat, max_chars: nat, max_lines: nat) -> (
    Seq<LineView>,
    Budget,
    bool,
)
    decreases k,
{
    if k == 0 {
        (Seq::empty(), Budget { chars: 0, lines: 0 }, false)
    } else {
        let (out, budget, stopped) = trimmed_lines(lines, (k - 1) as nat, max_chars, max_lines);
        if stopped {
            (out, budget, true)
        } else {
            let entered = after_line_start(budget, max_chars, max_lines);
            if (max_lines > 0 && entered.lines >= max_lines) || (max_chars > 0 && entered.chars
                >= max_chars) {
                (out, entered, true)
            } else {
                let (runs, reached) = trimmed_runs(
                    lines[k - 1],
                    lines[k - 1].len(),
                    entered,
                    max_chars,
                    max_lines,
                );
                (out.push(runs), reached, false)
            }
        }
    }
}

/// Lines of styled runs after truncation.
pub open spec fn trimmed_multi_style(lines: Seq<LineView>, max_chars: nat, max_lines: nat) -> Seq<
    LineView,
> {
    if max_chars == 0 && max_lines == 0 {
        lines
    } else {
        trimmed_lines(lines, lines.len(), max_chars, max_lines).0
    }
}

/// A text after truncation to `max_chars` characters and `max_lines` lines,
/// where 0 sets no limit.
pub open spec fn trimmed(text: TextView, max_chars: nat, max_lines: nat) -> TextView {
    match text {
        TextView::OneStyle(s) => TextView::OneStyle(trimmed_one_style(s, max_chars, max_lines)),
        TextView::MultiStyle(lines) => TextView::MultiStyle(
            trimmed_multi_style(lines, max_chars, max_lines),
        ),
    }
}

/// A count held in a machine word: exact below the word's maximum, and the
/// maximum from there on.
pub open spec fn saturated(n: nat) -> usize {
    if n <= usize::MAX {
        n as usize
    } else {
        usize::MAX
    }
}

/// Counts the line breaks of a string.
pub fn count_newlines(s: &str) -> (n: usize)
    ensures
        n == newlines(s@),
{
    let chars = chars_of(s);
    let mut seen: usize = 0;
    let mut i: usize = 0;
    while i < chars.len()
        invariant
            i <= chars.len(),
            chars@ == s@,
            seen == newlines(s@.take(i as int)),
            seen <= i,
        decreases chars.len() - i,
    {
        proof {
            lemma_newlines_take(s@, i as int);
        }
        if chars[i] == '\n' {
            seen = seen + 1;
        }
        i = i + 1;
    }
    assert(s@.take(i as int) =~= s@);
    seen
}

fn trim_runs(line: &Line, chars_used: usize, lines_used: usize, max_chars: usize, max_lines: usize)
    -> (out: (Line, usize, usize))
    ensures
        ({
            let start = Budget { chars: chars_used as nat, lines: lines_used as nat };
            let (runs, reached) = trimmed_runs(
                line_view(*line),
                line@.len(),
                start,
                max_chars as nat,
                max_lines as nat,
            );
            &&& line_view(out.0) == runs
            &&& out.1 == saturated(reached.chars)
            &&& out.2 == saturated(reached.lines)
        }),
        max_chars == 0 ==> out.1 == chars_used,
        max_lines == 0 ==> out.2 == lines_used,
{
    let ghost start = Budget { chars: chars_used as nat, lines: lines_used as nat };
    let ghost view = line_view(*line);
    let mut out: Line = Vec::new();
    let mut chars_acc: usize = chars_used;
    let mut lines_acc: usize = lines_used;
    let mut j: usize = 0;
    assert(line_view(out) =~= Seq::<RunView>::empty());
    while j < line.len()
        invariant
            j <= line.len(),
            view == line_view(*line),
            start == (Budget { chars: chars_used as nat, lines: lines_used as nat }),
            line_view(out) == trimmed_runs(
                view,
                j as nat,
                start,
                max_chars as nat,
                max_lines as nat,
            ).0,
            chars_acc == saturated(
                trimmed_runs(view, j as nat, start, max_chars as nat, max_lines as nat).1.chars,
            ),
            lines_acc == saturated(
                trimmed_runs(view, j as nat, start, max_chars as nat, max_lines as nat).1.lines,
            ),
            max_chars == 0 ==> chars_acc == chars_used,
            max_lines == 0 ==> lines_acc == lines_used,
        decreases line.len() - j,
    {
        let ghost before = trimmed_runs(view, j as nat, start, max_chars as nat, max_lines as nat);
        assert(view[j as int] == run_view(line@[j as int]));
        if !(max_chars > 0 && chars_acc >= max_chars) {
            let run = &line[j];
            let text: String = if max_chars > 0 {
                prefix_of(run.0.as_str(), max_chars - chars_acc)
            } else {
                run.0.clone()
            };
            assert(text@ =~= kept_chars(view[j as int].0, before.1.chars, max_chars as nat));
            let kept_len = text.as_str().unicode_len();
            let breaks: usize = if max_lines > 0 {
                let found = count_newlines(text.as_str());
                let room: usize = if lines_acc < max_lines - 1 {
                    max_lines - lines_acc
                } else {
                    1
                };
                if found <= room {
                    found
                } else {
                    room
                }
            } else {
                0
            };
            assert(breaks == counted_breaks(text@, before.1.lines, max_lines as nat));
            if max_chars > 0 {
                chars_acc = chars_acc.saturating_add(kept_len).saturating_add(breaks);
            }
            lines_acc = lines_acc.saturating_add(breaks);
            let ghost old_out = out;
            out.push((text, run.1.clone()));
            assert(line_view(out) =~= line_view(old_out).push((text@, run.1)));
        }
        j = j + 1;
    }
    (out, chars_acc, lines_acc)
}

/// Truncates lines of styled runs to `max_chars` characters and `max_lines`
/// lines, walking them from the first; 0 sets no limit.
pub fn trim_lines(lines: &Vec<Line>, max_chars: usize, max_lines: usize) -> (out: Vec<Line>)
    ensures
        lines_view(out) == trimmed_lines(
            lines_view(*lines),
            lines@.len(),
            max_chars as nat,
            max_lines as nat,
        ).0,
{
    let ghost view = lines_view(*lines);
    let mut out: Vec<Line> = Vec::new();
    let mut chars_acc: usize = 0;
    let mut lines_acc: usize = 0;
    let mut stopped = false;
    let mut k: usize = 0;
    assert(lines_view(out) =~= Seq::<LineView>::empty());
    while k < lines.len()
        invariant
            k <= lines.len(),
            view == lines_view(*lines),
            lines_view(out) == trimmed_lines(view, k as nat, max_chars as nat, max_lines as nat).0,
            chars_acc == saturated(
                trimmed_lines(view, k as nat, max_chars as nat, max_lines as nat).1.chars,
            ),
            lines_acc == saturated(
                trimmed_lines(view, k as nat, max_chars as nat, max_lines as nat).1.lines,
            ),
            stopped == trimmed_lines(view, k as nat, max_chars as nat, max_lines as nat).2,
            max_chars == 0 ==> chars_acc == 0,
            max_lines == 0 ==> lines_acc == 0,
        decreases lines.len() - k,
    {
        assert(view[k as int] == line_view(lines@[k as int]));
        assert(view[k as int].len() == lines@[k as int]@.len());
        if !stopped {
            if max_chars > 0 {
                chars_acc = chars_acc.saturating_add(1);
            }
            if max_lines > 0 {
                lines_acc = lines_acc.saturating_add(1);
            }
            if (max_lines > 0 && lines_acc >= max_lines) || (max_chars > 0 && chars_acc
                >= max_chars) {
                stopped = true;
            } else {
                let (runs, chars_reached, lines_reached) = trim_runs(
                    &lines[k],
                    chars_acc,
                    lines_acc,
                    max_chars,
                    max_lines,
                );
                chars_acc = chars_reached;
                lines_acc = lines_reached;
                let ghost old_out = out;
                out.push(runs);
                assert(lines_view(out) =~= lines_view(old_out).push(line_view(runs)));
            }
        }
        k = k + 1;
    }
    out
}

/// The characters of a line: those of its runs, one after the other.
pub open spec fn line_text(line: LineView) -> Seq<char>
    decreases line.len(),
{
    if line.len() == 0 {
        Seq::empty()
    } else {
        line_text(line.drop_last()) + line.last().0
    }
}

/// A copy of a line with the same runs.
pub fn clone_line(line: &Line) -> (out: Line)
    ensures
        line_view(out) == line_view(*line),
{
    let mut out: Line = Vec::new();
    let mut j: usize = 0;
    while j < line.len()
        invariant
            j <= line.len(),
            line_view(out) == line_view(*line).take(j as int),
        decreases line.len() - j,
    {
        let ghost old_out = out;
        let run = &line[j];
        out.push((run.0.clone(), run.1.clone()));
        j = j + 1;
        assert(line_view(out) =~= line_view(old_out).push(run_view(*run)));
        assert(line_view(out) =~= line_view(*line).take(j as int));
    }
    assert(line_view(*line).take(j as int) =~= line_view(*line));
    out
}

/// A copy of lines with the same runs.
pub fn clone_lines(lines: &Vec<Line>) -> (out: Vec<Line>)
    ensures
        lines_view(out) == lines_view(*lines),
{
    let mut out: Vec<Line> = Vec::new();
    let mut k: usize = 0;
    while k < lines.len()
        invariant
            k <= lines.len(),
            lines_view(out) == lines_view(*lines).take(k as int),
        decreases lines.len() - k,
    {
        let ghost old_out = out;
        let line = clone_line(&lines[k]);
        out.push(line);
        k = k + 1;
        assert(lines_view(out) =~= lines_view(old_out).push(line_view(line)));
        assert(lines_view(out) =~= lines_view(*lines).take(k as int));
    }
    assert(lines_view(*lines).take(k as int) =~= lines_view(*lines));
    out
}

/// Truncates a text in one style: first to `max_chars` characters, then
/// just after its `max_lines`-th line break; 0 sets no limit.
pub fn trim_one_style(s: String, max_chars: usize, max_lines: usize) -> (out: String)
    ensures
        out@ == trimmed_one_style(s@, max_chars as nat, max_lines as nat),
{
    let cut = if max_chars != 0 {
        prefix_of(s.as_str(), max_chars)
    } else {
        s
    };
    assert(cut@ =~= clipped_chars(s@, max_chars as nat));
    clip_lines(cut, max_lines)
}

/// Truncates a text to `max_chars` characters and `max_lines` lines, where 0
/// sets no limit. Nothing is rejected: what lies beyond a limit is dropped
/// from the end.
pub fn trim_text(text: CosmicText, max_chars: usize, max_lines: usize) -> (out: CosmicText)
    ensures
        out@ == trimmed(text@, max_chars as nat, max_lines as nat),
{
    if max_chars == 0 && max_lines == 0 {
        return text;
    }
    match text {
        CosmicText::OneStyle(s) => CosmicText::OneStyle(trim_one_style(s, max_chars, max_lines)),
        CosmicText::MultiStyle(lines) => CosmicText::MultiStyle(
            trim_lines(&lines, max_chars, max_lines),
        ),
    }
}

} // verus!
