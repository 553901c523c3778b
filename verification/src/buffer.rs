use crate::cursor::lemma_byte_offset_ends;
use crate::edit::all_fit;
use crate::edit::splice;
use crate::edit::spliced;
use crate::layout::Extent;
use crate::line::lemma_line_text_take;
use crate::line::line_fits;
use crate::text::clone_lines;
use crate::text::form_of;
use crate::text::line_text;
use crate::text::line_view;
use crate::text::lines_view;
use crate::text::run_view;
use crate::text::CosmicText;
use crate::text::Line;
use crate::text::LineView;
use crate::text::RunView;
use crate::text::TextForm;
use crate::text::TextView;
use cosmic_text::AttrsOwned;
use cosmic_text::Metrics;
use vstd::prelude::*;
use vstd::string::StringExecFns;

verus! {

/// `cosmic_text::Metrics`: font size and line height. They are kept for
/// the shaping engine; nothing is known of what they hold.
#[verifier::external_type_specification]
#[verifier::external_body]
pub struct ExMetrics(cosmic_text::Metrics);

/// The text of a widget as it is handed to shaping: lines of styled runs,
/// the metrics and the size to shape them in, and the mark that what was
/// shaped and drawn before is stale.
pub struct TextBuffer {
    pub(crate) lines: Vec<Line>,
    pub(crate) form: TextForm,
    pub(crate) shaping: Shaping,
}

/// What the shaping of a text depends on beside the text itself, and the
/// mark that what was shaped and drawn before is stale. The layout passes
/// work on this part of a buffer.
#[derive(Clone, Copy, Debug)]
pub struct Shaping {
    pub metrics: Metrics,
    pub width: Extent,
    pub height: Extent,
    /// Whether the text must be shaped and drawn again.
    pub redraw: bool,
    /// Whether the metrics were scaled to the device the widget is shown on.
    pub scale_resolved: bool,
}

/// What a buffer holds, as plain values.
pub struct BufferView {
    pub lines: Seq<LineView>,
    /// Whether the text was set in one style, and has taken no styled text
    /// since, or is held as styled runs.
    pub form: TextForm,
    pub metrics: Metrics,
    pub width: Extent,
    pub height: Extent,
    /// Whether the text must be shaped and drawn again.
    pub redraw: bool,
    /// Whether the metrics were scaled to the device the widget is shown on.
    pub scale_resolved: bool,
}

/// What the shaping engine is asked to shape a buffer in.
pub struct ShapeRequest {
    pub metrics: Metrics,
    pub width: Extent,
    pub height: Extent,
}

/// Whether every one of the lines can be addressed by byte indices.
pub open spec fn all_lines_fit(lines: Seq<LineView>) -> bool {
    forall|i: int| 0 <= i < lines.len() ==> line_fits(#[trigger] lines[i])
}

/// Whether lines can stand in a buffer: there is at least one, and each can
/// be addressed by byte indices.
pub open spec fn lines_wf(lines: Seq<LineView>) -> bool {
    lines.len() >= 1 && all_lines_fit(lines)
}

/// The lines that a buffer makes of a text: those of a text in one style
/// are cut at its line breaks and set in the given attributes; a text
/// without lines gives one empty line.
pub open spec fn lines_of(text: TextView, attrs: AttrsOwned) -> Seq<LineView> {
    match text {
        TextView::OneStyle(s) => spliced(Seq::empty(), s, attrs, Seq::empty()),
        TextView::MultiStyle(lines) => if lines.len() == 0 {
            seq![Seq::<RunView>::empty()]
        } else {
            lines
        },
    }
}

/// The text that a buffer holds, in its form.
pub open spec fn text_of(v: BufferView) -> TextView {
    match v.form {
        TextForm::OneStyle => TextView::OneStyle(joined(v.lines)),
        TextForm::MultiStyle => TextView::MultiStyle(v.lines),
    }
}

/// The text of lines, joined by line breaks.
pub open spec fn joined(lines: Seq<LineView>) -> Seq<char>
    decreases lines.len(),
{
    if lines.len() == 0 {
        Seq::empty()
    } else if lines.len() == 1 {
        line_text(lines[0])
    } else {
        joined(lines.drop_last()).push('\n') + line_text(lines.last())
    }
}

/// The request by which a text asks to be shaped: none while nothing has
/// changed since it was shaped, and none before its metrics are scaled to
/// the device. The request is made of the metrics and the size alone, so
/// that an unchanged buffer asks the same of the shaping engine each time.
pub open spec fn request_of(s: Shaping) -> Option<ShapeRequest> {
    if s.redraw && s.scale_resolved {
        Some(ShapeRequest { metrics: s.metrics, width: s.width, height: s.height })
    } else {
        None
    }
}

/// The part of a buffer that shaping depends on beside the text.
pub open spec fn shaping_of(v: BufferView) -> Shaping {
    Shaping {
        metrics: v.metrics,
        width: v.width,
        height: v.height,
        redraw: v.redraw,
        scale_resolved: v.scale_resolved,
    }
}

/// A buffer's lines with another shaping part.
pub open spec fn with_shaping(v: BufferView, s: Shaping) -> BufferView {
    BufferView {
        lines: v.lines,
        form: v.form,
        metrics: s.metrics,
        width: s.width,
        height: s.height,
        redraw: s.redraw,
        scale_resolved: s.scale_resolved,
    }
}

impl Shaping {
    /// No room, marked as stale, with metrics that are not yet scaled to a
    /// device.
    pub fn new(metrics: Metrics) -> (shaping: Shaping)
        ensures
            shaping == (Shaping {
                metrics,
                width: Extent::Bounded(0),
                height: Extent::Bounded(0),
                redraw: true,
                scale_resolved: false,
            }),
    {
        Shaping {
            metrics,
            width: Extent::Bounded(0),
            height: Extent::Bounded(0),
            redraw: true,
            scale_resolved: false,
        }
    }

    /// Sets the metrics that the text is shaped in, and marks it as stale.
    pub fn set_metrics(&mut self, metrics: Metrics)
        ensures
            *final(self) == (Shaping { metrics, redraw: true, ..*old(self) }),
    {
        self.metrics = metrics;
        self.redraw = true;
    }

    /// Sets the width and the height that the text is shaped in, either of
    /// which may be unbounded, and marks it as stale.
    pub fn set_size(&mut self, width: Extent, height: Extent)
        ensures
            *final(self) == (Shaping { width, height, redraw: true, ..*old(self) }),
    {
        self.width = width;
        self.height = height;
        self.redraw = true;
    }

    /// Scales the metrics to the device when the widget is first shown:
    /// `scaled` are the metrics at the device's scale. Returns whether they
    /// were taken; they are not where the metrics were scaled before, and
    /// then nothing changes.
    pub fn set_initial_scale(&mut self, scaled: Metrics) -> (taken: bool)
        ensures
            taken == !old(self).scale_resolved,
            taken ==> *final(self) == (Shaping {
                metrics: scaled,
                redraw: true,
                scale_resolved: true,
                ..*old(self)
            }),
            !taken ==> *final(self) == *old(self),
    {
        if self.scale_resolved {
            return false;
        }
        self.metrics = scaled;
        self.scale_resolved = true;
        self.redraw = true;
        true
    }

    /// What the shaping engine is to be asked, if anything.
    pub fn shape_request(&self) -> (request: Option<ShapeRequest>)
        ensures
            request == request_of(*self),
    {
        if self.redraw && self.scale_resolved {
            Some(ShapeRequest { metrics: self.metrics, width: self.width, height: self.height })
        } else {
            None
        }
    }
}

impl View for TextBuffer {
    type V = BufferView;

    open(crate) spec fn view(&self) -> BufferView {
        BufferView {
            lines: lines_view(self.lines),
            form: self.form,
            metrics: self.shaping.metrics,
            width: self.shaping.width,
            height: self.shaping.height,
            redraw: self.shaping.redraw,
            scale_resolved: self.shaping.scale_resolved,
        }
    }
}

impl TextBuffer {
    /// The buffer is well formed.
    pub open spec fn wf(&self) -> bool {
        lines_wf(self@.lines)
    }

    /// A buffer with an empty text in one style, held as one empty line,
    /// and no room, marked as stale. Its metrics are not yet scaled to a
    /// device.
    pub fn new(metrics: Metrics) -> (buffer: TextBuffer)
        ensures
            buffer.wf(),
            buffer@ == (BufferView {
                lines: seq![Seq::<RunView>::empty()],
                form: TextForm::OneStyle,
                metrics,
                width: Extent::Bounded(0),
                height: Extent::Bounded(0),
                redraw: true,
                scale_resolved: false,
            }),
    {
        let mut lines: Vec<Line> = Vec::new();
        lines.push(Vec::new());
        let buffer = TextBuffer {
            lines,
            form: TextForm::OneStyle,
            shaping: Shaping::new(metrics),
        };
        proof {
            let empty = Seq::<RunView>::empty();
            assert(line_view(buffer.lines@[0]) =~= empty);
            assert(buffer@.lines =~= seq![empty]);
            lemma_byte_offset_ends(line_text(empty));
        }
        buffer
    }

    /// The lines of runs.
    pub fn lines(&self) -> (lines: &Vec<Line>)
        ensures
            lines_view(*lines) == self@.lines,
    {
        &self.lines
    }

    /// The form of the text.
    pub fn form(&self) -> (form: TextForm)
        ensures
            form == self@.form,
    {
        self.form
    }

    /// The text in its form: the lines joined by line breaks where it is in
    /// one style, a copy of the lines where it is styled.
    pub fn text(&self) -> (text: CosmicText)
        ensures
            text@ == text_of(self@),
    {
        match self.form {
            TextForm::OneStyle => CosmicText::OneStyle(self.get_text()),
            TextForm::MultiStyle => CosmicText::MultiStyle(clone_lines(&self.lines)),
        }
    }

    /// The part of the buffer that shaping depends on beside the text.
    pub fn shaping(&self) -> (shaping: &Shaping)
        ensures
            *shaping == shaping_of(self@),
    {
        &self.shaping
    }

    /// The part of the buffer that shaping depends on beside the text, for
    /// a layout pass to change. The lines stay as they are.
    pub fn shaping_mut(&mut self) -> (shaping: &mut Shaping)
        ensures
            *shaping == shaping_of(old(self)@),
            final(self)@ == with_shaping(old(self)@, *final(shaping)),
    {
        &mut self.shaping
    }

    /// The metrics that the text is shaped in.
    pub fn metrics(&self) -> (metrics: Metrics)
        ensures
            metrics == self@.metrics,
    {
        self.shaping.metrics
    }

    /// The width and the height that the text is shaped in.
    pub fn size(&self) -> (size: (Extent, Extent))
        ensures
            size == (self@.width, self@.height),
    {
        (self.shaping.width, self.shaping.height)
    }

    /// Whether the text must be shaped and drawn again.
    pub fn redraw(&self) -> (flag: bool)
        ensures
            flag == self@.redraw,
    {
        self.shaping.redraw
    }

    /// Sets or clears the mark that the text must be shaped and drawn again.
    pub fn set_redraw(&mut self, flag: bool)
        ensures
            final(self)@ == (BufferView { redraw: flag, ..old(self)@ }),
    {
        self.shaping.redraw = flag;
    }

    /// Sets the text, which keeps its form. A text in one style is set in
    /// `default_attrs`. The buffer is marked as stale. Returns whether the
    /// text was set: it is not where a line is longer than byte indices can
    /// address; then nothing changes.
    pub fn set_text(&mut self, text: CosmicText, default_attrs: &AttrsOwned) -> (done: bool)
        ensures
            done == all_lines_fit(lines_of(text@, *default_attrs)),
            done ==> final(self).wf() && final(self)@ == (BufferView {
                lines: lines_of(text@, *default_attrs),
                form: form_of(text@),
                redraw: true,
                ..old(self)@
            }),
            !done ==> final(self)@ == old(self)@,
    {
        let form = match &text {
            CosmicText::OneStyle(_) => TextForm::OneStyle,
            CosmicText::MultiStyle(_) => TextForm::MultiStyle,
        };
        let lines = match text {
            CosmicText::OneStyle(s) => {
                let left: Line = Vec::new();
                let right: Line = Vec::new();
                assert(line_view(left) =~= Seq::<RunView>::empty());
                assert(line_view(right) =~= Seq::<RunView>::empty());
                splice(left, s.as_str(), default_attrs, right)
            },
            CosmicText::MultiStyle(lines) => {
                if lines.len() == 0 {
                    let mut one: Vec<Line> = Vec::new();
                    let empty: Line = Vec::new();
                    assert(line_view(empty) =~= Seq::<RunView>::empty());
                    one.push(empty);
                    assert(lines_view(one) =~= seq![Seq::<RunView>::empty()]);
                    one
                } else {
                    lines
                }
            },
        };
        if !all_fit(&lines) {
            return false;
        }
        self.lines = lines;
        self.form = form;
        self.shaping.redraw = true;
        true
    }

    /// Sets the metrics that the text is shaped in, and marks the buffer as
    /// stale.
    pub fn set_metrics(&mut self, metrics: Metrics)
        ensures
            final(self)@ == (BufferView { metrics, redraw: true, ..old(self)@ }),
    {
        self.shaping.set_metrics(metrics);
    }

    /// Sets the width and the height that the text is shaped in, either of
    /// which may be unbounded, and marks the buffer as stale.
    pub fn set_size(&mut self, width: Extent, height: Extent)
        ensures
            final(self)@ == (BufferView { width, height, redraw: true, ..old(self)@ }),
    {
        self.shaping.set_size(width, height);
    }

    /// Scales the metrics to the device when the widget is first shown.
    /// Returns whether they were taken; they are not where the metrics were
    /// scaled before, and then nothing changes.
    pub fn set_initial_scale(&mut self, scaled: Metrics) -> (taken: bool)
        ensures
            taken == !old(self)@.scale_resolved,
            taken ==> final(self)@ == (BufferView {
                metrics: scaled,
                redraw: true,
                scale_resolved: true,
                ..old(self)@
            }),
            !taken ==> final(self)@ == old(self)@,
    {
        self.shaping.set_initial_scale(scaled)
    }

    /// What the shaping engine is to be asked, if anything.
    pub fn shape_request(&self) -> (request: Option<ShapeRequest>)
        ensures
            request == request_of(shaping_of(self@)),
    {
        self.shaping.shape_request()
    }

    /// The whole text, its lines joined by line breaks.
    pub fn get_text(&self) -> (text: String)
        ensures
            text@ == joined(self@.lines),
    {
        let ghost view = lines_view(self.lines);
        let mut text = String::new();
        let mut i: usize = 0;
        assert(view.take(0) =~= Seq::<LineView>::empty());
        while i < self.lines.len()
            invariant
                i <= self.lines.len(),
                view == lines_view(self.lines),
                text@ == joined(view.take(i as int)),
            decreases self.lines.len() - i,
        {
            let line = &self.lines[i];
            if i > 0 {
                text.push('\n');
            }
            let ghost base = text@;
            let ghost runs = line_view(*line);
            let mut j: usize = 0;
            assert(runs.take(0) =~= Seq::<RunView>::empty());
            assert(text@ =~= base + line_text(runs.take(0)));
            while j < line.len()
                invariant
                    j <= line.len(),
                    runs == line_view(*line),
                    text@ == base + line_text(runs.take(j as int)),
                decreases line.len() - j,
            {
                proof {
                    lemma_line_text_take(runs, j as int);
                    assert(runs[j as int] == run_view(line@[j as int]));
                }
                text.append(line[j].0.as_str());
                j = j + 1;
                assert(text@ =~= base + line_text(runs.take(j as int)));
            }
            proof {
                assert(runs.take(j as int) =~= runs);
                assert(view[i as int] == runs);
                assert(view.take(i + 1).drop_last() =~= view.take(i as int));
                assert(view.take(i + 1).last() == runs);
                if i == 0 {
                    assert(base + line_text(runs) =~= line_text(runs));
                    assert(view.take(1)[0] == runs);
                }
            }
            i = i + 1;
        }
        assert(view.take(i as int) =~= view);
        text
    }
}

} // verus!
