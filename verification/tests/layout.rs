use cosmic_edit::buffer::TextBuffer;
use cosmic_edit::layout::auto_height;
use cosmic_edit::layout::center_offset;
use cosmic_edit::layout::cosmic_buffer_size;
use cosmic_edit::layout::cosmic_padding;
use cosmic_edit::layout::cursor_x;
use cosmic_edit::layout::frame_of;
use cosmic_edit::layout::measure_height;
use cosmic_edit::layout::on_scale_factor_change;
use cosmic_edit::layout::set_cursor;
use cosmic_edit::layout::set_size_from_ui;
use cosmic_edit::layout::CosmicMode;
use cosmic_edit::layout::CosmicPadding;
use cosmic_edit::layout::CosmicTextPosition;
use cosmic_edit::layout::CosmicWidgetSize;
use cosmic_edit::layout::Extent;
use cosmic_edit::layout::XOffset;
use cosmic_edit::pointer::get_node_cursor_pos;
use cosmic_edit::raster::Frame;
use cosmic_text::Metrics;

fn size(width: i32, height: i32) -> CosmicWidgetSize {
    CosmicWidgetSize { width, height }
}

#[test]
fn defaults() {
    assert_eq!(CosmicMode::default(), CosmicMode::Wrap);
    assert_eq!(CosmicTextPosition::default(), CosmicTextPosition::Center);
    assert_eq!(CosmicPadding::default(), CosmicPadding { x: 0, y: 0 });
    assert_eq!(CosmicWidgetSize::default(), size(0, 0));
    assert_eq!(XOffset::default().get(), None);
    assert_eq!(XOffset::unset().get(), None);
}

#[test]
fn center_offset_is_half_the_room_rounded_towards_zero() {
    assert_eq!(center_offset(100, 40), 30);
    assert_eq!(center_offset(5, 2), 1);
    assert_eq!(center_offset(2, 5), -1);
    assert_eq!(center_offset(i32::MAX, i32::MIN), i32::MAX);
    assert_eq!(center_offset(i32::MIN, i32::MAX), -i32::MAX);
}

#[test]
fn padding_by_position() {
    let s = size(100, 50);
    assert_eq!(
        cosmic_padding(CosmicTextPosition::Center, s, 40, 20),
        CosmicPadding { x: 30, y: 15 }
    );
    assert_eq!(
        cosmic_padding(CosmicTextPosition::TopLeft { padding: 7 }, s, 40, 20),
        CosmicPadding { x: 7, y: 7 }
    );
    assert_eq!(
        cosmic_padding(CosmicTextPosition::Left { padding: 7 }, s, 40, 20),
        CosmicPadding { x: 7, y: 15 }
    );
}

fn sized(mode: CosmicMode, s: CosmicWidgetSize, position: CosmicTextPosition) -> (Extent, Extent) {
    let mut buffer = TextBuffer::new(Metrics::new(10.0, 12.0));
    cosmic_buffer_size(buffer.shaping_mut(), mode, s, position);
    buffer.size()
}

#[test]
fn buffer_size_by_mode() {
    let s = size(100, 50);
    let left = CosmicTextPosition::Left { padding: 10 };
    assert_eq!(sized(CosmicMode::Wrap, s, left), (Extent::Bounded(90), Extent::Bounded(50)));
    assert_eq!(sized(CosmicMode::AutoHeight, s, left), (Extent::Bounded(90), Extent::Unbounded));
    assert_eq!(sized(CosmicMode::InfiniteLine, s, left), (Extent::Unbounded, Extent::Bounded(50)));
    assert_eq!(
        sized(CosmicMode::Wrap, s, CosmicTextPosition::Center),
        (Extent::Bounded(100), Extent::Bounded(50))
    );
    assert_eq!(
        sized(CosmicMode::Wrap, size(i32::MAX, 0), CosmicTextPosition::TopLeft { padding: i32::MIN }),
        (Extent::Bounded(i32::MAX as i64 + 2147483648), Extent::Bounded(0))
    );
}

#[test]
fn buffer_size_marks_stale_only_when_it_changes() {
    let mut buffer = TextBuffer::new(Metrics::new(10.0, 12.0));
    buffer.set_redraw(false);
    cosmic_buffer_size(buffer.shaping_mut(), CosmicMode::Wrap, size(0, 0), CosmicTextPosition::Center);
    assert!(!buffer.redraw());
    cosmic_buffer_size(buffer.shaping_mut(), CosmicMode::Wrap, size(10, 0), CosmicTextPosition::Center);
    assert!(buffer.redraw());
    buffer.set_redraw(false);
    cosmic_buffer_size(buffer.shaping_mut(), CosmicMode::Wrap, size(10, 0), CosmicTextPosition::Center);
    assert!(!buffer.redraw());
}

#[test]
fn size_from_ui_is_at_least_one_pixel() {
    assert_eq!(set_size_from_ui(0, -3), (1, 1));
    assert_eq!(set_size_from_ui(12, 1), (12, 1));
}

#[test]
fn auto_height_grows_and_never_shrinks() {
    let mut buffer = TextBuffer::new(Metrics::new(10.0, 12.0));
    buffer.set_redraw(false);
    assert_eq!(auto_height(buffer.shaping_mut(), CosmicMode::AutoHeight, 50, 80), Some(80));
    assert!(buffer.redraw());
    buffer.set_redraw(false);
    assert_eq!(auto_height(buffer.shaping_mut(), CosmicMode::AutoHeight, 80, 40), None);
    assert_eq!(auto_height(buffer.shaping_mut(), CosmicMode::AutoHeight, 80, 80), None);
    assert!(!buffer.redraw());
}

#[test]
fn auto_height_leaves_other_modes_alone() {
    let mut buffer = TextBuffer::new(Metrics::new(10.0, 12.0));
    buffer.set_redraw(false);
    assert_eq!(auto_height(buffer.shaping_mut(), CosmicMode::Wrap, 50, 80), None);
    assert_eq!(auto_height(buffer.shaping_mut(), CosmicMode::InfiniteLine, 50, 80), None);
    assert!(!buffer.redraw());
}

#[test]
fn measured_height_adds_the_margin() {
    assert_eq!(measure_height(50), 80);
    assert_eq!(measure_height(i32::MAX), i32::MAX as i64 + 30);
}

#[test]
fn cursor_x_sums_advances_by_affinity() {
    let adv = vec![10u32, 20, 30];
    assert_eq!(cursor_x(CosmicMode::InfiniteLine, &adv, 1, false), 10);
    assert_eq!(cursor_x(CosmicMode::InfiniteLine, &adv, 1, true), 30);
    assert_eq!(cursor_x(CosmicMode::InfiniteLine, &adv, 0, false), 0);
    assert_eq!(cursor_x(CosmicMode::InfiniteLine, &adv, 9, false), 60);
    assert_eq!(cursor_x(CosmicMode::InfiniteLine, &adv, usize::MAX, true), 60);
    assert_eq!(cursor_x(CosmicMode::Wrap, &adv, 2, true), 0);
    assert_eq!(cursor_x(CosmicMode::AutoHeight, &adv, 2, true), 0);
}

#[test]
fn viewport_slides_right_with_the_cursor() {
    let mut offset = XOffset::new(0, 100).unwrap();
    set_cursor(&mut offset, CosmicMode::InfiniteLine, size(100, 20), CosmicPadding { x: 0, y: 0 }, 150);
    assert_eq!(offset.get(), Some((50, 150)));
}

#[test]
fn viewport_slides_left_with_the_cursor() {
    let mut offset = XOffset::new(50, 150).unwrap();
    set_cursor(&mut offset, CosmicMode::InfiniteLine, size(100, 20), CosmicPadding { x: 0, y: 0 }, 20);
    assert_eq!(offset.get(), Some((20, 120)));
}

#[test]
fn viewport_stays_while_it_holds_the_cursor() {
    let mut offset = XOffset::new(50, 150).unwrap();
    set_cursor(&mut offset, CosmicMode::InfiniteLine, size(100, 20), CosmicPadding { x: 0, y: 0 }, 50);
    assert_eq!(offset.get(), Some((50, 150)));
    set_cursor(&mut offset, CosmicMode::InfiniteLine, size(100, 20), CosmicPadding { x: 0, y: 0 }, 150);
    assert_eq!(offset.get(), Some((50, 150)));
}

#[test]
fn viewport_is_established_by_an_infinite_line_only() {
    let pad = CosmicPadding { x: 10, y: 0 };
    let mut offset = XOffset::unset();
    set_cursor(&mut offset, CosmicMode::Wrap, size(100, 20), pad, 500);
    assert_eq!(offset.get(), None);
    set_cursor(&mut offset, CosmicMode::InfiniteLine, size(100, 20), pad, 0);
    assert_eq!(offset.get(), Some((0, 80)));
    let mut offset = XOffset::unset();
    set_cursor(&mut offset, CosmicMode::InfiniteLine, size(100, 20), pad, 100);
    assert_eq!(offset.get(), Some((20, 100)));
    let mut offset = XOffset::unset();
    set_cursor(&mut offset, CosmicMode::InfiniteLine, size(10, 20), pad, 0);
    assert_eq!(offset.get(), Some((0, 0)));
}

#[test]
fn viewport_bounds_may_not_cross() {
    assert!(XOffset::new(3, 2).is_none());
    assert_eq!(XOffset::new(2, 2).unwrap().get(), Some((2, 2)));
}

#[test]
fn scale_change_forgets_the_viewport() {
    let mut offset = XOffset::new(50, 150).unwrap();
    let mut buffer = TextBuffer::new(Metrics::new(10.0, 12.0));
    buffer.set_redraw(false);
    on_scale_factor_change(buffer.shaping_mut(), None, &mut offset);
    assert_eq!(offset.get(), Some((50, 150)));
    assert_eq!(buffer.metrics(), Metrics::new(10.0, 12.0));
    assert!(!buffer.redraw());
    on_scale_factor_change(buffer.shaping_mut(), Some(Metrics::new(20.0, 24.0)), &mut offset);
    assert_eq!(offset.get(), None);
    assert_eq!(buffer.metrics(), Metrics::new(20.0, 24.0));
    assert!(buffer.redraw());
}

#[test]
fn frame_takes_the_window_start_as_shift() {
    let offset = XOffset::new(50, 150).unwrap();
    assert_eq!(offset.shift(), 50);
    assert_eq!(XOffset::unset().shift(), 0);
    assert_eq!(XOffset::new(u64::MAX, u64::MAX).unwrap().shift(), i32::MAX);
    assert_eq!(
        frame_of(size(100, 20), CosmicPadding { x: 3, y: 4 }, &offset),
        Frame { width: 100, height: 20, pad_x: 3, pad_y: 4, x_offset: 50 }
    );
}

#[test]
fn pointer_inside_a_ui_node_counts_from_the_top_left() {
    // node centred at (50, 50), 20 by 10: spans x 40..60, y 45..55
    assert_eq!(get_node_cursor_pos(Some((45, 47)), (50, 50), (20, 10), true), Some((5, 2)));
}

#[test]
fn pointer_inside_a_sprite_counts_y_from_the_top() {
    assert_eq!(get_node_cursor_pos(Some((45, 47)), (50, 50), (20, 10), false), Some((5, 8)));
}

#[test]
fn pointer_on_the_border_or_outside_is_none() {
    assert_eq!(get_node_cursor_pos(Some((40, 50)), (50, 50), (20, 10), true), None);
    assert_eq!(get_node_cursor_pos(Some((60, 50)), (50, 50), (20, 10), true), None);
    assert_eq!(get_node_cursor_pos(Some((50, 45)), (50, 50), (20, 10), true), None);
    assert_eq!(get_node_cursor_pos(Some((50, 55)), (50, 50), (20, 10), true), None);
    assert_eq!(get_node_cursor_pos(Some((0, 0)), (50, 50), (20, 10), false), None);
    assert_eq!(get_node_cursor_pos(None, (50, 50), (20, 10), true), None);
}

#[test]
fn pointer_in_a_node_of_odd_size() {
    // 5 wide around 10: spans 7.5..12.5
    assert_eq!(get_node_cursor_pos(Some((8, 0)), (10, 0), (5, 1), true), Some((0, 0)));
    assert_eq!(get_node_cursor_pos(Some((12, 0)), (10, 0), (5, 1), true), Some((4, 0)));
    assert_eq!(get_node_cursor_pos(Some((7, 0)), (10, 0), (5, 1), true), None);
}

#[test]
fn pointer_in_an_empty_node_is_none() {
    assert_eq!(get_node_cursor_pos(Some((10, 10)), (10, 10), (0, 0), true), None);
    assert_eq!(get_node_cursor_pos(Some((10, 10)), (10, 10), (-4, -4), true), None);
}
