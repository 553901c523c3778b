use cosmic_edit::buffer::TextBuffer;
use cosmic_edit::color::Rgba;
use cosmic_edit::editor::CosmicEditor;
use cosmic_edit::editor::CURSOR_BLINK_MILLIS;
use cosmic_edit::raster::solid_fill;
use cosmic_edit::raster::composite;
use cosmic_edit::raster::Frame;
use cosmic_edit::raster::GlyphRect;
use cosmic_edit::render::render_buffer;
use cosmic_edit::render::render_editor;
use cosmic_edit::render::Bitmap;
use cosmic_edit::render::MARKER_ARGB;
use cosmic_edit::render::TEXT_ARGB;
use cosmic_edit::widget::CosmicAttrs;
use cosmic_edit::widget::CosmicMaxChars;
use cosmic_edit::widget::CosmicMaxLines;
use cosmic_edit::widget::CosmicRenderSet;
use cosmic_edit::widget::FillColor;
use cosmic_text::Attrs;
use cosmic_text::AttrsOwned;
use cosmic_text::Metrics;

const BLUE: Rgba = Rgba { r: 0, g: 0, b: 255, a: 255 };

fn frame(width: i32, height: i32) -> Frame {
    Frame { width, height, pad_x: 0, pad_y: 0, x_offset: 0 }
}

#[test]
fn default_attrs_are_the_shaping_engines() {
    assert_eq!(CosmicAttrs::default().0, AttrsOwned::new(Attrs::new()));
}

#[test]
fn default_fill_is_white_and_limits_are_off() {
    assert_eq!(FillColor::default(), FillColor(Rgba { r: 255, g: 255, b: 255, a: 255 }));
    assert_eq!(CosmicMaxLines::default(), CosmicMaxLines(0));
    assert_eq!(CosmicMaxChars::default(), CosmicMaxChars(0));
}

#[test]
fn marker_and_text_colours() {
    assert_eq!(Rgba::from_argb(TEXT_ARGB), Rgba { r: 0, g: 0, b: 0, a: 255 });
    assert_eq!(Rgba::from_argb(MARKER_ARGB), Rgba { r: 255, g: 0, b: 255, a: 255 });
    assert_eq!(CURSOR_BLINK_MILLIS, 530);
}

#[test]
fn passes_run_in_order_and_drawing_comes_last() {
    let mut set = CosmicRenderSet::Setup;
    let mut seen = vec![set];
    while let Some(next) = set.next() {
        assert_eq!(next.order(), set.order() + 1);
        set = next;
        seen.push(set);
    }
    assert_eq!(
        seen,
        vec![
            CosmicRenderSet::Setup,
            CosmicRenderSet::Shaping,
            CosmicRenderSet::Sizing,
            CosmicRenderSet::Cursor,
            CosmicRenderSet::Padding,
            CosmicRenderSet::Draw,
        ]
    );
    assert_eq!(CosmicRenderSet::Setup.order(), 0);
    assert_eq!(CosmicRenderSet::Draw.order(), 5);
}

#[test]
fn render_buffer_draws_only_when_stale() {
    let mut buffer = TextBuffer::new(Metrics::new(14.0, 20.0));
    let none: Vec<GlyphRect> = Vec::new();
    let out = render_buffer(&mut buffer, &none, BLUE, None, &frame(3, 2));
    assert_eq!(out, Some(solid_fill(3, 2, BLUE)));
    assert!(!buffer.redraw());
    let again = render_buffer(&mut buffer, &none, BLUE, None, &frame(3, 2));
    assert_eq!(again, None);
    buffer.set_redraw(true);
    let bitmap = Bitmap { pixels: vec![1, 2, 3, 4], width: 1, height: 1 };
    let third = render_buffer(&mut buffer, &none, BLUE, Some(&bitmap), &frame(1, 1));
    assert_eq!(third, Some(vec![1, 2, 3, 4]));
}

#[test]
fn render_buffer_composites_the_rectangles_in_their_order() {
    let mut buffer = TextBuffer::new(Metrics::new(14.0, 20.0));
    let rects = vec![
        GlyphRect { x: 0, y: 0, w: 2, h: 1, argb: 0xffff_0000 },
        GlyphRect { x: 1, y: 0, w: 1, h: 1, argb: 0xff00_ff00 },
        GlyphRect { x: 0, y: 0, w: 1, h: 1, argb: 0x0000_00ff },
    ];
    let place = Frame { width: 3, height: 1, pad_x: 1, pad_y: 0, x_offset: 0 };
    let out = render_buffer(&mut buffer, &rects, BLUE, None, &place).unwrap();
    assert_eq!(out, vec![0, 0, 255, 255, 255, 0, 0, 255, 0, 255, 0, 255]);
    let mut by_hand = solid_fill(3, 1, BLUE);
    composite(&mut by_hand, &place, &rects);
    assert_eq!(out, by_hand);
}

#[test]
fn render_buffer_of_an_empty_surface_is_empty() {
    let mut buffer = TextBuffer::new(Metrics::new(14.0, 20.0));
    let rects = vec![GlyphRect { x: 0, y: 0, w: 9, h: 9, argb: 0xffff_ffff }];
    let out = render_buffer(&mut buffer, &rects, BLUE, None, &frame(0, 5));
    assert_eq!(out, Some(vec![]));
}

#[test]
fn render_editor_draws_only_when_marked() {
    let mut editor = CosmicEditor::new(
        TextBuffer::new(Metrics::new(14.0, 20.0)),
        AttrsOwned::new(Attrs::new()),
    );
    let rects = vec![GlyphRect { x: 1, y: 1, w: 1, h: 1, argb: MARKER_ARGB }];
    let out = render_editor(&mut editor, &rects, BLUE, None, &frame(2, 2)).unwrap();
    assert_eq!(&out[0..12], &solid_fill(3, 1, BLUE)[..]);
    assert_eq!(&out[12..16], &[255, 0, 255, 255]);
    assert!(!editor.redraw());
    let again = render_editor(&mut editor, &rects, BLUE, None, &frame(2, 2));
    assert_eq!(again, None);
}
