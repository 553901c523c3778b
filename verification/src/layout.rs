use crate::buffer::Shaping;
use crate::raster::Frame;
use cosmic_text::Metrics;
use vstd::prelude::*;

verus! {

/// How a widget sizes the buffer that its text is shaped in.
#[derive(Clone, Copy, Debug, PartialEq, Eq, Structural)]
pub enum CosmicMode {
    /// One line of unbounded width, scrolled horizontally.
    InfiniteLine,
    /// Wrapped lines; the widget grows in height to fit them.
    AutoHeight,
    /// Wrapped lines; what overflows the widget is clipped.
    Wrap,
}

impl Default for CosmicMode {
    fn default() -> (mode: Self)
        ensures
            mode == CosmicMode::Wrap,
    {
        CosmicMode::Wrap
    }
}

/// Where the text sits inside its widget.
#[derive(Clone, Copy, Debug, PartialEq, Eq, Structural)]
pub enum CosmicTextPosition {
    Center,
    TopLeft { padding: i32 },
    Left { padding: i32 },
}

impl Default for CosmicTextPosition {
    fn default() -> (position: Self)
        ensures
            position == CosmicTextPosition::Center,
    {
        CosmicTextPosition::Center
    }
}

/// The inset of the text's top left corner from the widget's, in pixels.
#[derive(Clone, Copy, Debug, PartialEq, Eq, Structural)]
pub struct CosmicPadding {
    pub x: i32,
    pub y: i32,
}

impl Default for CosmicPadding {
    fn default() -> (padding: Self)
        ensures
            padding == (CosmicPadding { x: 0, y: 0 }),
    {
        CosmicPadding { x: 0, y: 0 }
    }
}

/// The size of a widget's surface, in pixels.
#[derive(Clone, Copy, Debug, PartialEq, Eq, Structural)]
pub struct CosmicWidgetSize {
    pub width: i32,
    pub height: i32,
}

impl Default for CosmicWidgetSize {
    fn default() -> (size: Self)
        ensures
            size == (CosmicWidgetSize { width: 0, height: 0 }),
    {
        CosmicWidgetSize { width: 0, height: 0 }
    }
}

/// One extent of the buffer that text is shaped in.
#[derive(Clone, Copy, Debug, PartialEq, Eq, Structural)]
pub enum Extent {
    /// So many pixels.
    Bounded(i64),
    /// No bound: the text grows freely along this axis.
    Unbounded,
}

/// The vertical margin that an auto-height widget keeps around its text.
pub const VERTICAL_MARGIN: i32 = 30;

/// Half of what the widget has left over around the content, rounded towards
/// zero: the inset that centres the content.
pub open spec fn centered(widget: int, content: int) -> int {
    if widget >= content {
        (widget - content) / 2
    } else {
        -((content - widget) / 2)
    }
}

/// The horizontal inset that a position asks for.
pub open spec fn horizontal_inset(position: CosmicTextPosition) -> int {
    match position {
        CosmicTextPosition::Center => 0,
        CosmicTextPosition::TopLeft { padding } => padding as int,
        CosmicTextPosition::Left { padding } => padding as int,
    }
}

/// The padding of text of the given size inside a widget of the given size.
pub open spec fn padding_of(
    position: CosmicTextPosition,
    size: CosmicWidgetSize,
    text_width: i32,
    text_height: i32,
) -> CosmicPadding {
    match position {
        CosmicTextPosition::Center => CosmicPadding {
            x: centered(size.width as int, text_width as int) as i32,
            y: centered(size.height as int, text_height as int) as i32,
        },
        CosmicTextPosition::TopLeft { padding } => CosmicPadding { x: padding, y: padding },
        CosmicTextPosition::Left { padding } => CosmicPadding {
            x: padding,
            y: centered(size.height as int, text_height as int) as i32,
        },
    }
}

/// The buffer's width and height for a widget in the given mode.
pub open spec fn buffer_size_of(
    mode: CosmicMode,
    size: CosmicWidgetSize,
    position: CosmicTextPosition,
) -> (Extent, Extent) {
    let width = (size.width - horizontal_inset(position)) as i64;
    match mode {
        CosmicMode::InfiniteLine => (Extent::Unbounded, Extent::Bounded(size.height as i64)),
        CosmicMode::AutoHeight => (Extent::Bounded(width), Extent::Unbounded),
        CosmicMode::Wrap => (Extent::Bounded(width), Extent::Bounded(size.height as i64)),
    }
}

/// The inset that centres content of extent `content` in a widget of extent
/// `widget`. It is negative where the content is the larger.
pub fn center_offset(widget: i32, content: i32) -> (offset: i32)
    ensures
        offset == centered(widget as int, content as int),
{
    let diff: i64 = widget as i64 - content as i64;
    (diff / 2) as i32
}

/// Computes the padding of the text inside its widget: centred in both axes,
/// inset from the top left corner, or inset from the left and centred
/// vertically.
pub fn cosmic_padding(
    position: CosmicTextPosition,
    size: CosmicWidgetSize,
    text_width: i32,
    text_height: i32,
) -> (padding: CosmicPadding)
    ensures
        padding == padding_of(position, size, text_width, text_height),
{
    match position {
        CosmicTextPosition::Center => CosmicPadding {
            x: center_offset(size.width, text_width),
            y: center_offset(size.height, text_height),
        },
        CosmicTextPosition::TopLeft { padding } => CosmicPadding { x: padding, y: padding },
        CosmicTextPosition::Left { padding } => CosmicPadding {
            x: padding,
            y: center_offset(size.height, text_height),
        },
    }
}

/// Sizes the buffer that the text is shaped in: the widget's width less
/// the horizontal inset and the widget's height, with the width unbounded
/// for an infinite line and the height unbounded for auto height. A buffer
/// that has this size already is left alone, and so is not marked as stale.
pub fn cosmic_buffer_size(
    buffer: &mut Shaping,
    mode: CosmicMode,
    size: CosmicWidgetSize,
    position: CosmicTextPosition,
)
    ensures
        *final(buffer) == (if (old(buffer).width, old(buffer).height) == buffer_size_of(
            mode,
            size,
            position,
        ) {
            *old(buffer)
        } else {
            Shaping {
                width: buffer_size_of(mode, size, position).0,
                height: buffer_size_of(mode, size, position).1,
                redraw: true,
                ..*old(buffer)
            }
        }),
{
    let inset: i64 = match position {
        CosmicTextPosition::Center => 0,
        CosmicTextPosition::TopLeft { padding } => padding as i64,
        CosmicTextPosition::Left { padding } => padding as i64,
    };
    let width: i64 = size.width as i64 - inset;
    let (w, h) = match mode {
        CosmicMode::InfiniteLine => (Extent::Unbounded, Extent::Bounded(size.height as i64)),
        CosmicMode::AutoHeight => (Extent::Bounded(width), Extent::Unbounded),
        CosmicMode::Wrap => (Extent::Bounded(width), Extent::Bounded(size.height as i64)),
    };
    if buffer.width != w || buffer.height != h {
        buffer.set_size(w, h);
    }
}

/// The size that a widget takes from the layout node it is shown in: the
/// node's, and at least one pixel each way.
pub fn set_size_from_ui(node_width: i32, node_height: i32) -> (size: (i32, i32))
    ensures
        size.0 == (if node_width >= 1 {
            node_width
        } else {
            1
        }),
        size.1 == (if node_height >= 1 {
            node_height
        } else {
            1
        }),
{
    (
        if node_width >= 1 {
            node_width
        } else {
            1
        },
        if node_height >= 1 {
            node_height
        } else {
            1
        },
    )
}

/// The height that shaped text asks of an auto-height widget: its own and
/// the vertical margin.
pub open spec fn measured_height(text_height: i32) -> int {
    text_height + VERTICAL_MARGIN
}

/// The height of a widget after text of the given measured height was laid
/// out in it: an auto-height widget that is too low grows to the measured
/// height; nothing else changes, and no widget shrinks.
pub open spec fn grown_height(mode: CosmicMode, height: i32, measured: i64) -> i64 {
    if mode == CosmicMode::AutoHeight && measured > height {
        measured
    } else {
        height as i64
    }
}

/// Grows an auto-height widget that is too low for its text. Returns the
/// new height where the widget is in auto-height mode and the measured
/// height exceeds its own; the buffer is then marked as stale, and the
/// caller resizes the widget and every layout node linked to it. Returns
/// `None` where the height stays; a widget never shrinks.
pub fn auto_height(buffer: &mut Shaping, mode: CosmicMode, height: i32, measured: i64) -> (grown:
    Option<i64>)
    ensures
        grown is Some <==> mode == CosmicMode::AutoHeight && measured > height,
        grown matches Some(h) ==> h == measured,
        (match grown {
            Some(h) => h,
            None => height as i64,
        }) == grown_height(mode, height, measured),
        grown_height(mode, height, measured) >= height,
        mode == CosmicMode::AutoHeight ==> grown_height(mode, height, measured) >= measured,
        *final(buffer) == (if grown is Some {
            Shaping { redraw: true, ..*old(buffer) }
        } else {
            *old(buffer)
        }),
{
    match mode {
        CosmicMode::AutoHeight => {
            if measured > height as i64 {
                buffer.redraw = true;
                Some(measured)
            } else {
                None
            }
        },
        _ => None,
    }
}

/// The measured height of text that is `text_height` pixels high.
pub fn measure_height(text_height: i32) -> (measured: i64)
    ensures
        measured == measured_height(text_height),
{
    text_height as i64 + VERTICAL_MARGIN as i64
}

/// The horizontal viewport of an infinite line: the bounds, in pixels of the
/// shaped line, of the part that the widget shows. `None` until the widget
/// has established it.
#[derive(Clone, Copy, Debug, PartialEq, Eq)]
pub struct XOffset(Option<(u64, u64)>);

impl XOffset {
    /// The bounds never cross.
    #[verifier::type_invariant]
    pub closed spec fn wf(self) -> bool {
        match self.0 {
            Some((min, max)) => min <= max,
            None => true,
        }
    }

    /// The window's bounds, where it is established.
    pub closed spec fn bounds(self) -> Option<(u64, u64)> {
        self.0
    }

    /// The viewport that is not yet established.
    pub fn unset() -> (offset: XOffset)
        ensures
            offset.bounds() == None::<(u64, u64)>,
    {
        XOffset(None)
    }

    /// The viewport with the given bounds, or `None` where they cross.
    pub fn new(min: u64, max: u64) -> (offset: Option<XOffset>)
        ensures
            offset is Some <==> min <= max,
            offset matches Some(o) ==> o.bounds() == Some((min, max)),
    {
        if min <= max {
            Some(XOffset(Some((min, max))))
        } else {
            None
        }
    }

    /// The window's bounds, where it is established.
    pub fn get(&self) -> (bounds: Option<(u64, u64)>)
        ensures
            bounds == self.bounds(),
            bounds matches Some((min, max)) ==> min <= max,
    {
        proof {
            use_type_invariant(self);
        }
        self.0
    }

    /// The left bound of the window, by which rendering shifts the text: 0
    /// where the window is not established, and the nearest value that a
    /// frame can hold where the bound lies beyond.
    pub fn shift(&self) -> (shift: i32)
        ensures
            shift == shift_of(self.bounds()),
    {
        match self.0 {
            None => 0,
            Some((min, _)) => if min > i32::MAX as u64 {
                i32::MAX
            } else {
                min as i32
            },
        }
    }
}

impl Default for XOffset {
    fn default() -> (offset: Self)
        ensures
            offset.bounds() == None::<(u64, u64)>,
    {
        XOffset(None)
    }
}

/// The shift that a window asks of rendering.
pub open spec fn shift_of(bounds: Option<(u64, u64)>) -> i32 {
    match bounds {
        None => 0,
        Some((min, _)) => if min > i32::MAX {
            i32::MAX
        } else {
            min as i32
        },
    }
}

/// The sum of the first `n` advances.
pub open spec fn advance_sum(advances: Seq<u32>, n: nat) -> nat
    decreases n,
{
    if n == 0 {
        0
    } else {
        advance_sum(advances, (n - 1) as nat) + advances[n - 1] as nat
    }
}

/// How many glyphs lie before the cursor: those before its index, and with
/// affinity to the glyph before it also the one at its index.
pub open spec fn glyphs_before(count: nat, index: nat, before: bool) -> nat {
    let wanted = if before {
        index + 1
    } else {
        index
    };
    if wanted <= count {
        wanted
    } else {
        count
    }
}

/// The cursor's horizontal position on a shaped line: the advances of the
/// glyphs before it, summed.
pub open spec fn cursor_x_of(advances: Seq<u32>, index: nat, before: bool) -> nat {
    advance_sum(advances, glyphs_before(advances.len(), index, before))
}

/// The window that an infinite line starts with: the widget's width less the
/// padding on both sides, from 0, and empty where the padding leaves no room.
pub open spec fn initial_window(width: i32, padding_x: i32) -> (u64, u64) {
    let room = width - 2 * padding_x;
    (
        0,
        if room >= 0 {
            room as u64
        } else {
            0
        },
    )
}

/// The window moved so that it holds the cursor: right by as much as the
/// cursor lies beyond its right bound, left by as much as the cursor lies
/// before its left bound.
pub open spec fn slid(window: (u64, u64), cursor_x: u64) -> (u64, u64) {
    if cursor_x > window.1 {
        ((window.0 + (cursor_x - window.1)) as u64, cursor_x)
    } else if cursor_x < window.0 {
        (cursor_x, (window.1 - (window.0 - cursor_x)) as u64)
    } else {
        window
    }
}

/// The viewport after a layout pass with the cursor at `cursor_x`. An
/// infinite line establishes its window where it has none; an established
/// window follows the cursor in any mode.
pub open spec fn viewport_after(
    bounds: Option<(u64, u64)>,
    mode: CosmicMode,
    width: i32,
    padding_x: i32,
    cursor_x: u64,
) -> Option<(u64, u64)> {
    let established = if mode == CosmicMode::InfiniteLine && bounds is None {
        Some(initial_window(width, padding_x))
    } else {
        bounds
    };
    match established {
        Some(window) => Some(slid(window, cursor_x)),
        None => None,
    }
}

/// A count held in 64 bits: exact below the maximum, the maximum from there.
pub open spec fn capped(n: nat) -> u64 {
    if n <= u64::MAX {
        n as u64
    } else {
        u64::MAX
    }
}

/// The cursor's horizontal position on the shaped line of an infinite line,
/// from the advances of the line's glyphs; 0 in the other modes.
pub fn cursor_x(mode: CosmicMode, advances: &Vec<u32>, index: usize, before: bool) -> (x: u64)
    ensures
        x == (if mode == CosmicMode::InfiniteLine {
            capped(cursor_x_of(advances@, index as nat, before))
        } else {
            0
        }),
{
    match mode {
        CosmicMode::InfiniteLine => {},
        _ => {
            return 0;
        },
    }
    let wanted: usize = if before {
        index.saturating_add(1)
    } else {
        index
    };
    let count: usize = if wanted <= advances.len() {
        wanted
    } else {
        advances.len()
    };
    let mut x: u64 = 0;
    let mut i: usize = 0;
    while i < count
        invariant
            i <= count <= advances.len(),
            x == capped(advance_sum(advances@, i as nat)),
        decreases count - i,
    {
        let w: u64 = advances[i] as u64;
        x = if x > u64::MAX - w {
            u64::MAX
        } else {
            x + w
        };
        i = i + 1;
    }
    x
}

/// Moves the viewport of a widget so that it holds the cursor. Afterwards an
/// established window has the width it had, and the cursor lies inside it.
pub fn set_cursor(
    offset: &mut XOffset,
    mode: CosmicMode,
    size: CosmicWidgetSize,
    padding: CosmicPadding,
    cursor_x: u64,
)
    ensures
        final(offset).bounds() == viewport_after(
            old(offset).bounds(),
            mode,
            size.width,
            padding.x,
            cursor_x,
        ),
        final(offset).bounds() matches Some((min, max)) ==> min <= cursor_x <= max,
        old(offset).bounds() matches Some((a, b)) ==> (final(offset).bounds() matches Some((c, d))
            && d - c == b - a),
{
    proof {
        use_type_invariant(&*offset);
    }
    let established: Option<(u64, u64)> = match offset.0 {
        Some(window) => Some(window),
        None => match mode {
            CosmicMode::InfiniteLine => {
                let room: i64 = size.width as i64 - 2 * (padding.x as i64);
                Some(
                    (
                        0,
                        if room >= 0 {
                            room as u64
                        } else {
                            0
                        },
                    ),
                )
            },
            _ => None,
        },
    };
    match established {
        Some((min, max)) => {
            if cursor_x > max {
                *offset = XOffset(Some((min + (cursor_x - max), cursor_x)));
            } else if cursor_x < min {
                *offset = XOffset(Some((cursor_x, max - (min - cursor_x))));
            } else {
                *offset = XOffset(Some((min, max)));
            }
        },
        None => {},
    }
}

/// Follows a change of the device's scale. `rescaled` holds the metrics as
/// they are at the new scale where a change is pending, and nothing where
/// none is. On a change the buffer takes the metrics and is marked as stale,
/// and the viewport is forgotten, since its window was measured in pixels
/// of the old scale. Without a change nothing changes.
pub fn on_scale_factor_change(buffer: &mut Shaping, rescaled: Option<Metrics>, offset: &mut XOffset)
    ensures
        *final(buffer) == (match rescaled {
            Some(metrics) => Shaping { metrics, redraw: true, ..*old(buffer) },
            None => *old(buffer),
        }),
        final(offset).bounds() == (match rescaled {
            Some(_) => None::<(u64, u64)>,
            None => old(offset).bounds(),
        }),
{
    match rescaled {
        Some(metrics) => {
            buffer.set_metrics(metrics);
            *offset = XOffset(None);
        },
        None => {},
    }
}

/// The frame in which a widget is rendered.
pub fn frame_of(size: CosmicWidgetSize, padding: CosmicPadding, offset: &XOffset) -> (frame: Frame)
    ensures
        frame == (Frame {
            width: size.width,
            height: size.height,
            pad_x: padding.x,
            pad_y: padding.y,
            x_offset: shift_of(offset.bounds()),
        }),
{
    Frame {
        width: size.width,
        height: size.height,
        pad_x: padding.x,
        pad_y: padding.y,
        x_offset: offset.shift(),
    }
}

} // verus!
