use node_editor_core::geometry::{
    compute_pin_screen_position, create_bezier_from_endpoints, distance_to_bezier_sq,
    distance_to_line_segment_sq, eval_sample, NodeRect, Point, Pos, UNITS_PER_PX,
};
use node_editor_core::overlay::{
    InputEventFilterResult, InputEventResult, Key, KeyEventResult, LinkRecord, Mode, MouseEvent,
    NodeEditorOverlay, PendingReports, PointerButton, Signal, NO_LINK, NO_PIN,
};
use node_editor_core::pins::{node_id_of, normalize_link, pin_is_output, pins_compatible};

/// A position given in pixels, in units.
fn px(x: i64, y: i64) -> Pos {
    Pos { x: x * UNITS_PER_PX, y: y * UNITS_PER_PX }
}

fn overlay() -> NodeEditorOverlay {
    NodeEditorOverlay::new(100, 3000, 0, 5)
}

fn rect(x: i32, y: i32, width: i32, height: i32) -> NodeRect {
    NodeRect { x, y, width, height }
}

fn link(start_pin_id: i32, end_pin_id: i32) -> LinkRecord {
    LinkRecord { start_pin_id, end_pin_id, color: 0xff00_ff00 }
}

fn empty_reports() -> PendingReports {
    PendingReports {
        pin: None,
        pins: Vec::new(),
        node_rect: None,
        node_rects: Vec::new(),
        link: None,
        links: Vec::new(),
        deleted_links: Vec::new(),
        clicked_node: None,
    }
}

/// Two nodes side by side: node 1 at (0, 0), node 2 at (300, 0), each 100 by 80,
/// with pins 11 (input) and 12 (output) on node 1, 21 and 22 on node 2.
fn two_nodes() -> NodeEditorOverlay {
    let mut o = overlay();
    o.report_node_rect(1, rect(0, 0, 100, 80));
    o.report_node_rect(2, rect(300, 0, 100, 80));
    o.report_pin(11, Point { x: 14, y: 46 });
    o.report_pin(12, Point { x: 86, y: 46 });
    o.report_pin(21, Point { x: 314, y: 46 });
    o.report_pin(22, Point { x: 386, y: 46 });
    o
}

#[test]
fn pin_ids_split_into_node_and_type() {
    assert_eq!(node_id_of(12), 1);
    assert_eq!(node_id_of(1234), 123);
    assert_eq!(node_id_of(-12), -1);
    assert!(pin_is_output(12));
    assert!(pin_is_output(102));
    assert!(!pin_is_output(11));
    assert!(!pin_is_output(13));
    assert!(!pin_is_output(-12));
}

#[test]
fn compatibility_is_symmetric() {
    let ids = [11, 12, 13, 21, 22, 23, 31, 32, 102, 201];
    for &a in &ids {
        assert!(!pins_compatible(a, a));
        for &b in &ids {
            assert_eq!(pins_compatible(a, b), pins_compatible(b, a), "{a} {b}");
        }
    }
    assert!(pins_compatible(12, 21));
    assert!(pins_compatible(12, 23));
    assert!(!pins_compatible(12, 11)); // same node
    assert!(!pins_compatible(12, 22)); // two outputs
    assert!(!pins_compatible(11, 21)); // two inputs
    assert!(!pins_compatible(13, 21));
}

#[test]
fn normalization_puts_output_first() {
    assert_eq!(normalize_link(12, 21), (12, 21));
    assert_eq!(normalize_link(21, 12), (12, 21));
}

#[test]
fn link_created_from_either_end_is_the_same() {
    let mut o = two_nodes();
    assert!(o.start_link_creation(12, 86, 46));
    assert!(matches!(o.mode, Mode::CreatingLink { start_pin: 12, .. }));
    assert_eq!(o.handle_mouse_released(314, 46, PointerButton::Left), InputEventResult::EventAccepted);
    assert_eq!(o.take_events(), vec![Signal::LinkCreated { start_pin: 12, end_pin: 21 }]);
    assert_eq!(o.mode, Mode::Idle);

    assert!(o.start_link_creation(21, 314, 46));
    o.handle_mouse_released(86, 46, PointerButton::Left);
    assert_eq!(o.take_events(), vec![Signal::LinkCreated { start_pin: 12, end_pin: 21 }]);
}

#[test]
fn duplicate_link_is_dropped() {
    let mut o = two_nodes();
    o.report_link(7, link(12, 21));
    let before = o.links.len();
    assert!(o.start_link_creation(21, 314, 46));
    o.handle_mouse_released(86, 46, PointerButton::Left);
    assert_eq!(o.take_events(), vec![Signal::LinkDropped]);
    assert_eq!(o.links.len(), before);
}

#[test]
fn incompatible_or_empty_target_is_dropped() {
    let mut o = two_nodes();
    assert!(o.start_link_creation(12, 86, 46));
    o.handle_mouse_released(386, 46, PointerButton::Left); // output onto output
    assert_eq!(o.take_events(), vec![Signal::LinkDropped]);
    assert!(o.start_link_creation(12, 86, 46));
    o.handle_mouse_released(200, 300, PointerButton::Left); // nothing there
    assert_eq!(o.take_events(), vec![Signal::LinkDropped]);
    assert!(o.start_link_creation(12, 86, 46));
    o.handle_mouse_released(14, 46, PointerButton::Left); // same node
    assert_eq!(o.take_events(), vec![Signal::LinkDropped]);
}

#[test]
fn explicit_target_wins_over_hit_test() {
    let mut o = two_nodes();
    assert!(o.start_link_creation(12, 86, 46));
    o.handle_mouse_moved(200, 300);
    o.complete_link_creation(21);
    assert_eq!(o.take_events(), vec![Signal::LinkCreated { start_pin: 12, end_pin: 21 }]);
    assert!(o.start_link_creation(12, 86, 46));
    o.handle_mouse_moved(314, 46);
    o.complete_link_creation(NO_PIN);
    assert_eq!(o.take_events(), vec![Signal::LinkCreated { start_pin: 12, end_pin: 21 }]);
    // without a drag in progress nothing happens
    o.complete_link_creation(21);
    assert!(o.take_events().is_empty());
}

#[test]
fn modes_exclude_each_other() {
    let mut o = two_nodes();
    assert_eq!(
        o.handle_mouse_pressed(500, 500, PointerButton::Middle, false, false),
        InputEventResult::GrabMouse
    );
    assert!(matches!(o.mode, Mode::Panning { .. }));
    assert_eq!(
        o.handle_mouse_pressed(500, 500, PointerButton::Left, true, false),
        InputEventResult::EventIgnored
    );
    assert!(matches!(o.mode, Mode::Panning { .. }));
    assert!(!o.start_link_creation(12, 86, 46));
    assert!(!o.begin_drag());
    assert!(matches!(o.mode, Mode::Panning { .. }));
    o.handle_mouse_released(500, 500, PointerButton::Middle);
    assert_eq!(o.mode, Mode::Idle);
    assert!(o.start_link_creation(12, 86, 46));
    assert_eq!(
        o.handle_mouse_pressed(500, 500, PointerButton::Middle, false, false),
        InputEventResult::EventIgnored
    );
    assert!(matches!(o.mode, Mode::CreatingLink { .. }));
}

#[test]
fn panning_follows_cursor() {
    let mut o = two_nodes();
    o.handle_mouse_pressed(100, 100, PointerButton::Middle, false, false);
    assert_eq!(o.handle_mouse_moved(130, 80), InputEventResult::GrabMouse);
    assert_eq!((o.pan_x, o.pan_y), (30 * UNITS_PER_PX, -20 * UNITS_PER_PX));
    assert_eq!(o.take_events(), vec![Signal::LinkPositionsChanged, Signal::ViewportChanged]);
    o.handle_mouse_moved(90, 100);
    assert_eq!((o.pan_x, o.pan_y), (-10 * UNITS_PER_PX, 0));
}

/// Distance in pixels between the cursor and where the graph point that was
/// under it is drawn after the zoom.
fn anchor_error(cursor: i32, old_pan: i64, old_zoom: i64, new_pan: i64, new_zoom: i64) -> f64 {
    let u = UNITS_PER_PX as f64;
    let graph = (cursor as f64 - old_pan as f64 / u) / (old_zoom as f64 / 1000.0);
    (new_pan as f64 / u + graph * new_zoom as f64 / 1000.0 - cursor as f64).abs()
}

#[test]
fn zoom_keeps_point_under_cursor() {
    let mut o = overlay();
    o.pan_x = 15 * UNITS_PER_PX;
    o.pan_y = -40 * UNITS_PER_PX;
    assert!(o.zoom_at(400, 300, 120));
    assert_eq!(o.zoom, 1100);
    // graph point under the cursor: (385, 340); new pan: 400 - 385 * 1.1, 300 - 340 * 1.1
    assert_eq!(o.pan_x, -47 * UNITS_PER_PX / 2); // -23.5 px
    assert_eq!(o.pan_y, -74 * UNITS_PER_PX);
    assert!(anchor_error(400, 15 * UNITS_PER_PX, 1000, o.pan_x, o.zoom) < 1e-3);
    assert!(anchor_error(300, -40 * UNITS_PER_PX, 1000, o.pan_y, o.zoom) < 1e-3);
    assert_eq!(o.take_events(), vec![Signal::LinkPositionsChanged, Signal::ViewportChanged]);

    assert!(o.zoom_at(400, 300, -120));
    assert_eq!(o.zoom, 990);
}

#[test]
fn zoom_near_origin_keeps_sub_pixel_pan() {
    let mut o = overlay();
    assert!(o.zoom_at(1, 1, 1));
    // 1 - (1 - 0) * 1.1 = -0.1 px
    assert_eq!(o.pan_x, -UNITS_PER_PX / 10);
    assert_eq!(o.pan_y, -UNITS_PER_PX / 10);
    assert!(anchor_error(1, 0, 1000, o.pan_x, o.zoom) < 1e-3);
    let mut o = overlay();
    o.pan_x = 7;
    for _ in 0..5 {
        let (before, zoom) = (o.pan_x, o.zoom);
        assert!(o.zoom_at(333, 0, 1));
        assert!(anchor_error(333, before, zoom, o.pan_x, o.zoom) < 1e-3);
    }
}

#[test]
fn zoom_is_clamped_and_no_op_at_bound() {
    let mut o = NodeEditorOverlay::new(500, 1000, 0, 5);
    assert!(!o.zoom_at(10, 10, 1));
    assert_eq!(o.zoom, 1000);
    assert!(o.take_events().is_empty());
    assert_eq!(o.handle_mouse_wheel(10, 10, 1), InputEventResult::EventIgnored);
    for _ in 0..20 {
        o.zoom_at(10, 10, -1);
    }
    assert_eq!(o.zoom, 500);
}

#[test]
fn new_holds_zoom_bounds() {
    let o = NodeEditorOverlay::new(0, 500_000, 0, 5);
    assert_eq!((o.min_zoom, o.max_zoom, o.zoom), (1, 100_000, 1000));
    let o = NodeEditorOverlay::new(100, 50_000, 0, 5);
    assert_eq!(o.max_zoom, 50_000);
    let o = NodeEditorOverlay::new(2000, 3000, 0, 5);
    assert_eq!(o.zoom, 2000);
    assert_eq!(o.hovered_link_id, NO_LINK);
}

#[test]
fn box_selection_selects_overlapping_nodes() {
    let mut o = overlay();
    o.report_node_rect(1, rect(0, 0, 100, 50));
    o.report_node_rect(2, rect(200, 200, 100, 50));
    assert_eq!(
        o.handle_mouse_pressed(0, 0, PointerButton::Left, true, false),
        InputEventResult::GrabMouse
    );
    o.handle_mouse_moved(150, 100);
    assert_eq!(o.mode, Mode::BoxSelecting { origin: Point { x: 0, y: 0 }, current: Point { x: 150, y: 100 } });
    assert_eq!(o.handle_mouse_released(150, 100, PointerButton::Left), InputEventResult::EventAccepted);
    assert_eq!(o.selected_nodes.ids(), vec![1]);
    assert_eq!(o.take_events(), vec![Signal::SelectionChanged]);
}

#[test]
fn box_selection_any_direction_replaces_selection() {
    let mut o = overlay();
    o.report_node_rect(1, rect(0, 0, 100, 50));
    o.report_node_rect(2, rect(200, 200, 100, 50));
    o.handle_node_click(1, false);
    o.handle_mouse_pressed(400, 400, PointerButton::Left, true, false);
    o.handle_mouse_moved(250, 240);
    o.handle_mouse_released(250, 240, PointerButton::Left);
    assert_eq!(o.selected_nodes.ids(), vec![2]);
}

#[test]
fn box_selection_cancelled_on_exit() {
    let mut o = overlay();
    o.report_node_rect(1, rect(0, 0, 100, 50));
    o.handle_mouse_pressed(0, 0, PointerButton::Left, true, false);
    o.handle_mouse_moved(150, 100);
    assert_eq!(o.handle_mouse_exit(), InputEventResult::EventAccepted);
    assert_eq!(o.mode, Mode::Idle);
    assert!(o.selected_nodes.ids().is_empty());
}

#[test]
fn bezier_hit_test_on_horizontal_link() {
    let curve = create_bezier_from_endpoints(px(0, 0), px(200, 0), 1000);
    assert_eq!(curve.p1, px(100, 0));
    assert_eq!(curve.p2, px(100, 0));
    assert!(distance_to_bezier_sq(Point { x: 100, y: 0 }, &curve) < 5 * 5);
    assert!(distance_to_bezier_sq(Point { x: 100, y: 50 }, &curve) >= 5 * 5);
    assert_eq!(distance_to_bezier_sq(Point { x: 100, y: 50 }, &curve), 2500);
}

#[test]
fn short_link_uses_minimum_control_offset() {
    let curve = create_bezier_from_endpoints(px(0, 0), px(40, 100), 2000);
    assert_eq!(curve.p1, px(100, 0));
    assert_eq!(curve.p2, px(-60, 100));
    assert_eq!(eval_sample(&curve, 0), px(0, 0));
    assert_eq!(eval_sample(&curve, 20), px(40, 100));
    // t = 1/2: (0 + 3 * 100 + 3 * (-60) + 40) / 8 = 20, (3 * 100 + 100) / 8 = 50
    assert_eq!(eval_sample(&curve, 10), px(20, 50));
}

#[test]
fn control_offset_is_half_the_span() {
    let curve = create_bezier_from_endpoints(px(0, 0), px(201, 0), 1000);
    // 100.5 px
    assert_eq!(curve.p1, Pos { x: 201 * UNITS_PER_PX / 2, y: 0 });
    assert_eq!(curve.p2, Pos { x: 201 * UNITS_PER_PX / 2, y: 0 });
}

#[test]
fn segment_distance_cases() {
    let a = Pos { x: -10, y: 0 };
    let b = Pos { x: 10, y: 0 };
    assert_eq!(distance_to_line_segment_sq(Pos { x: 0, y: 5 }, a, b), 25);
    assert_eq!(distance_to_line_segment_sq(Pos { x: 20, y: 0 }, a, b), 100);
    assert_eq!(distance_to_line_segment_sq(Pos { x: -13, y: 4 }, a, b), 25);
    let p = Pos { x: 0, y: 0 };
    assert_eq!(distance_to_line_segment_sq(Pos { x: 3, y: 4 }, p, p), 25);
}

#[test]
fn pin_positions_follow_rect_and_zoom() {
    let r = rect(0, 0, 100, 50);
    assert_eq!(compute_pin_screen_position(12, &r, 1000), px(86, 46));
    assert_eq!(compute_pin_screen_position(11, &r, 1000), px(14, 46));
    assert_eq!(compute_pin_screen_position(13, &r, 1000), px(14, 46));
    assert_eq!(compute_pin_screen_position(12, &r, 2000), px(72, 92));
    assert_eq!(compute_pin_screen_position(11, &rect(10, 20, 100, 50), 500), px(17, 43));
}

#[test]
fn pin_positions_are_exact_at_fine_zoom() {
    // zoom 1.001: y = 40 * 1.001 + 6 * 1.001 = 46.046 px, x = 14 * 1.001 = 14.014 px
    let p = compute_pin_screen_position(11, &rect(0, 0, 100, 50), 1001);
    assert_eq!(p, Pos { x: 14014 * UNITS_PER_PX / 1000, y: 46046 * UNITS_PER_PX / 1000 });
}

#[test]
fn regenerate_draws_links_with_known_nodes() {
    let mut o = two_nodes();
    o.report_link(5, link(12, 21));
    o.regenerate_link_positions();
    assert_eq!(o.link_geometry.len(), 1);
    let g = o.link_geometry[0];
    assert_eq!(g.link_id, 5);
    assert_eq!(g.start, px(86, 46));
    assert_eq!(g.end, px(314, 46));
    assert_eq!(g.color, 0xff00_ff00);
    assert_eq!(g.path, create_bezier_from_endpoints(g.start, g.end, 1000));
    assert_eq!(o.take_events(), vec![Signal::LinkPositionsChanged]);
}

#[test]
fn regenerate_omits_links_with_unknown_node() {
    let mut o = overlay();
    o.report_node_rect(1, rect(0, 0, 100, 80));
    o.report_link(5, link(12, 21));
    o.report_link(3, link(12, 11));
    o.regenerate_link_positions();
    assert_eq!(o.link_geometry.len(), 1);
    assert_eq!(o.link_geometry[0].link_id, 3);
}

#[test]
fn regenerate_orders_by_link_id() {
    let mut o = two_nodes();
    o.report_link(9, link(12, 21));
    o.report_link(2, link(22, 11));
    o.regenerate_link_positions();
    let ids: Vec<i32> = o.link_geometry.iter().map(|g| g.link_id).collect();
    assert_eq!(ids, vec![2, 9]);
}

#[test]
fn drag_offset_moves_selected_nodes_links() {
    let mut o = two_nodes();
    o.report_link(5, link(12, 21));
    o.handle_node_click(2, false);
    assert!(o.begin_drag());
    o.update_drag(10, -4);
    o.render_frame();
    assert_eq!(o.link_geometry[0].start, px(86, 46));
    assert_eq!(o.link_geometry[0].end, px(324, 42));
    o.end_drag();
    assert_eq!(o.mode, Mode::Idle);
    assert_eq!(o.link_geometry[0].end, px(314, 46));
}

#[test]
fn pending_reports_apply_in_order_and_regenerate_once() {
    let mut o = overlay();
    let mut r = empty_reports();
    r.pin = Some((11, Point { x: 1, y: 1 }));
    r.pins = vec![(11, Point { x: 14, y: 46 }), (21, Point { x: 314, y: 46 })];
    r.node_rect = Some((1, rect(5, 5, 10, 10)));
    r.node_rects = vec![(1, rect(0, 0, 100, 80)), (2, rect(300, 0, 100, 80))];
    r.links = vec![(5, link(12, 21)), (6, link(22, 11))];
    r.deleted_links = vec![6];
    o.process_pending_reports(&r);
    assert_eq!(o.pin_positions.get(11), Some(Point { x: 14, y: 46 }));
    assert_eq!(o.node_rects.get(1), Some(rect(0, 0, 100, 80)));
    assert_eq!(o.links.ids(), vec![5]);
    assert_eq!(o.link_geometry.len(), 1);
    assert_eq!(o.take_events(), vec![Signal::LinkPositionsChanged]);

    let mut r = empty_reports();
    r.pins = vec![(12, Point { x: 86, y: 46 })];
    o.process_pending_reports(&r);
    assert!(o.take_events().is_empty());
}

#[test]
fn deleted_links_leave_selection() {
    let mut o = two_nodes();
    o.report_link(5, link(12, 21));
    o.report_link(6, link(22, 11));
    o.handle_link_click(5, false);
    o.handle_link_click(6, true);
    assert_eq!(o.selected_links.ids(), vec![5, 6]);
    o.report_deleted_links(&vec![5, 42]);
    assert_eq!(o.links.ids(), vec![6]);
    assert_eq!(o.selected_links.ids(), vec![6]);
}

#[test]
fn selecting_one_kind_clears_the_other() {
    let mut o = two_nodes();
    o.handle_node_click(1, false);
    o.handle_node_click(2, true);
    assert_eq!(o.selected_nodes.ids(), vec![1, 2]);
    o.handle_link_click(5, false);
    assert!(o.selected_nodes.ids().is_empty());
    assert_eq!(o.selected_links.ids(), vec![5]);
    o.take_events();
    o.handle_node_click(2, false);
    assert!(o.selected_links.ids().is_empty());
    assert_eq!(o.selected_nodes.ids(), vec![2]);
    assert_eq!(o.take_events(), vec![Signal::LinkSelectionChanged, Signal::SelectionChanged]);
}

#[test]
fn shift_click_toggles_within_kind() {
    let mut o = two_nodes();
    o.handle_node_click(1, false);
    o.handle_link_click(5, true);
    assert_eq!(o.selected_nodes.ids(), vec![1]);
    assert_eq!(o.selected_links.ids(), vec![5]);
    o.handle_link_click(5, true);
    assert!(o.selected_links.ids().is_empty());
    o.handle_node_click(1, true);
    assert!(o.selected_nodes.ids().is_empty());
}

#[test]
fn clicking_the_only_selected_link_deselects_it() {
    let mut o = two_nodes();
    o.handle_link_click(5, false);
    o.handle_link_click(5, false);
    assert!(o.selected_links.ids().is_empty());
    o.handle_link_click(5, false);
    o.handle_link_click(6, false);
    assert_eq!(o.selected_links.ids(), vec![6]);
}

#[test]
fn pin_hit_uses_default_radius() {
    let o = two_nodes();
    // 12 * 0.66 at zoom one: 7.92
    assert_eq!(o.find_pin_at(90, 50), 12);
    assert_eq!(o.find_pin_at(93, 46), 12);
    assert_eq!(o.find_pin_at(93, 49), 12); // distance^2 58 <= 62.7264
    assert_eq!(o.find_pin_at(94, 46), NO_PIN); // 64
    assert_eq!(o.find_pin_at(93, 50), NO_PIN); // 65
    assert_eq!(o.find_pin_at(200, 200), NO_PIN);
    let mut wide = NodeEditorOverlay::new(100, 3000, 20, 5);
    wide.report_pin(12, Point { x: 0, y: 0 });
    wide.report_pin(11, Point { x: 10, y: 0 });
    assert_eq!(wide.find_pin_at(6, 0), 11);
}

#[test]
fn link_hit_picks_closest() {
    let mut o = overlay();
    o.report_node_rect(1, rect(0, 0, 100, 80));
    o.report_node_rect(2, rect(300, 0, 100, 80));
    o.report_node_rect(3, rect(300, 6, 100, 80));
    o.report_link(8, link(12, 31));
    o.report_link(5, link(12, 21));
    // link 5 runs along y = 46 from x = 86 to x = 314; link 8 ends at y = 52
    assert_eq!(o.find_link_at(300, 46), 5);
    assert_eq!(o.find_link_at(300, 52), 8);
    assert_eq!(o.find_link_at(200, 200), NO_LINK);
}

#[test]
fn left_press_on_link_selects_it_unless_on_pin() {
    let mut o = two_nodes();
    o.report_link(5, link(12, 21));
    assert_eq!(
        o.input_event_filter_before_children(
            MouseEvent::Pressed { position: Point { x: 200, y: 46 }, button: PointerButton::Left },
            false
        ),
        InputEventFilterResult::Intercept
    );
    assert_eq!(
        o.handle_mouse_pressed(200, 46, PointerButton::Left, false, false),
        InputEventResult::EventAccepted
    );
    assert_eq!(o.selected_links.ids(), vec![5]);
    assert_eq!(
        o.input_event_filter_before_children(
            MouseEvent::Pressed { position: Point { x: 86, y: 46 }, button: PointerButton::Left },
            false
        ),
        InputEventFilterResult::ForwardEvent
    );
    assert_eq!(
        o.handle_mouse_pressed(86, 46, PointerButton::Left, false, false),
        InputEventResult::EventIgnored
    );
}

#[test]
fn filter_intercepts_by_event_kind() {
    let mut o = two_nodes();
    let at = Point { x: 600, y: 600 };
    let press = |button| MouseEvent::Pressed { position: at, button };
    assert_eq!(o.input_event_filter_before_children(press(PointerButton::Middle), false), InputEventFilterResult::Intercept);
    assert_eq!(o.input_event_filter_before_children(press(PointerButton::Right), false), InputEventFilterResult::Intercept);
    assert_eq!(o.input_event_filter_before_children(press(PointerButton::Left), true), InputEventFilterResult::Intercept);
    assert_eq!(o.input_event_filter_before_children(press(PointerButton::Left), false), InputEventFilterResult::ForwardEvent);
    assert_eq!(
        o.input_event_filter_before_children(MouseEvent::Wheel { position: at, delta_y: 1 }, false),
        InputEventFilterResult::Intercept
    );
    assert_eq!(o.input_event_filter_before_children(MouseEvent::Moved { position: at }, false), InputEventFilterResult::ForwardEvent);
    o.start_link_creation(12, 86, 46);
    assert_eq!(o.input_event_filter_before_children(MouseEvent::Moved { position: at }, false), InputEventFilterResult::Intercept);
}

#[test]
fn background_click_clears_selection() {
    let mut o = two_nodes();
    o.handle_node_click(1, false);
    o.handle_link_click(5, true);
    o.take_events();
    assert_eq!(o.handle_mouse_released(600, 600, PointerButton::Left), InputEventResult::EventIgnored);
    assert!(o.selected_nodes.ids().is_empty());
    assert!(o.selected_links.ids().is_empty());
    assert_eq!(o.take_events(), vec![Signal::LinkSelectionChanged, Signal::SelectionChanged]);
    o.handle_node_click(1, false);
    o.take_events();
    o.handle_mouse_released(50, 10, PointerButton::Left); // on node 1
    assert_eq!(o.selected_nodes.ids(), vec![1]);
    assert!(o.take_events().is_empty());
}

#[test]
fn right_press_requests_context_menu() {
    let mut o = overlay();
    assert_eq!(
        o.input_event(MouseEvent::Pressed { position: Point { x: 7, y: 9 }, button: PointerButton::Right }, false, false),
        InputEventResult::EventAccepted
    );
    assert_eq!(o.take_events(), vec![Signal::ContextMenuRequested { x: 7, y: 9 }]);
}

#[test]
fn keys_delete_add_and_cancel() {
    let mut o = two_nodes();
    assert_eq!(o.capture_key_event(Key::Delete, false), KeyEventResult::EventAccepted);
    assert_eq!(o.capture_key_event(Key::Backspace, false), KeyEventResult::EventAccepted);
    assert_eq!(o.capture_key_event(Key::Character('n'), true), KeyEventResult::EventAccepted);
    assert_eq!(o.capture_key_event(Key::Character('N'), true), KeyEventResult::EventAccepted);
    assert_eq!(o.capture_key_event(Key::Character('n'), false), KeyEventResult::EventIgnored);
    assert_eq!(o.capture_key_event(Key::Escape, false), KeyEventResult::EventIgnored);
    assert_eq!(o.key_event(Key::Character('n')), KeyEventResult::EventIgnored);
    assert_eq!(
        o.take_events(),
        vec![Signal::DeleteSelected, Signal::DeleteSelected, Signal::AddNodeRequested, Signal::AddNodeRequested]
    );
    o.start_link_creation(12, 86, 46);
    assert_eq!(o.key_event(Key::Escape), KeyEventResult::EventAccepted);
    assert_eq!(o.mode, Mode::Idle);
    assert_eq!(o.take_events(), vec![Signal::LinkCancelled]);
}

#[test]
fn exit_cancels_link_drag_and_hover() {
    let mut o = two_nodes();
    o.report_link(5, link(12, 21));
    o.handle_mouse_moved(200, 46);
    assert_eq!(o.hovered_link_id, 5);
    assert_eq!(o.take_events(), vec![Signal::LinkHovered { link_id: 5 }]);
    o.start_link_creation(12, 86, 46);
    assert_eq!(o.handle_mouse_exit(), InputEventResult::EventAccepted);
    assert_eq!(o.mode, Mode::Idle);
    assert_eq!(o.hovered_link_id, NO_LINK);
    assert_eq!(o.take_events(), vec![Signal::LinkHovered { link_id: NO_LINK }, Signal::LinkCancelled]);
    assert_eq!(o.handle_mouse_exit(), InputEventResult::EventIgnored);
    assert!(o.take_events().is_empty());
}

#[test]
fn link_preview_follows_cursor() {
    let mut o = two_nodes();
    assert!(o.link_preview_path().is_none());
    o.start_link_creation(12, 86, 46);
    o.handle_mouse_moved(200, 146);
    let path = o.link_preview_path().unwrap();
    assert_eq!(path, create_bezier_from_endpoints(px(86, 46), px(200, 146), 1000));
    assert_eq!(path.p1, px(143, 46));
}

#[test]
fn filter_sees_reports_of_the_same_pass() {
    let mut o = two_nodes();
    let mut r = empty_reports();
    r.link = Some((5, link(12, 21)));
    let press = MouseEvent::Pressed { position: Point { x: 200, y: 46 }, button: PointerButton::Left };
    assert_eq!(o.input_event_filter_before_children(press, false), InputEventFilterResult::ForwardEvent);
    assert_eq!(o.filter_with_reports(&r, press, false), InputEventFilterResult::Intercept);
    assert_eq!(o.links.ids(), vec![5]);
    assert_eq!(o.take_events(), vec![Signal::LinkPositionsChanged]);
}

#[test]
fn wheel_and_exit_through_router() {
    let mut o = two_nodes();
    let wheel = MouseEvent::Wheel { position: Point { x: 1, y: 1 }, delta_y: 3 };
    assert_eq!(o.input_event(wheel, false, false), InputEventResult::EventAccepted);
    assert_eq!((o.zoom, o.pan_x), (1100, -UNITS_PER_PX / 10));
    assert_eq!(o.take_events(), vec![Signal::LinkPositionsChanged, Signal::ViewportChanged]);
    o.start_link_creation(12, 86, 46);
    assert_eq!(o.input_event(MouseEvent::Exit, false, false), InputEventResult::EventAccepted);
    assert_eq!(o.take_events(), vec![Signal::LinkCancelled]);
}
