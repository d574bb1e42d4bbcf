use viz::data::{CallRecord, VizData};
use viz::event::{NavButton, NavEvent, NavKey, Point};
use viz::menu::MenuContext;
use viz::view::{method_hue, FlameChart, MAX_DIM};
use viz::zoom::Zoom;

fn record(thread_id: u32, start: u64, elapsed: u64, method: u32, depth: u32) -> CallRecord {
    CallRecord {
        thread_id,
        start_time: start,
        elapsed_time: elapsed,
        method_id: method,
        depth,
    }
}

fn store_with(calls: Vec<CallRecord>) -> VizData {
    let mut d = VizData::default();
    d.thread_ids = vec![1, 2];
    d.abs_end_time = 1_000_000;
    d.calls = calls;
    d
}

#[test]
fn coordinate_mapping_matches_the_formulas() {
    // ppn = 0.01 pixels per nanosecond, offset 0:
    // x = 1000 * 0.01 = 10, y = 2 * 34 = 68, w = 500 * 0.01 = 5, h = 32
    let data = store_with(vec![record(1, 1000, 500, 7, 2)]);
    let mut v = FlameChart::init(1000, 500);
    v.zoom = Zoom { num: 1, den: 100 };
    let plan = v.paint(&data, 1000, 500);
    assert_eq!(plan.spans.len(), 1);
    let sb = plan.spans[0];
    assert_eq!(sb.index, 0);
    assert_eq!(sb.x_num as f64 / sb.den as f64, 10.0);
    assert_eq!(sb.y, 68);
    assert_eq!(sb.w_num as f64 / sb.den as f64, 5.0);
    assert!(!sb.labeled);
}

#[test]
fn culling_drops_narrow_and_offscreen_spans() {
    let data = store_with(vec![
        record(1, 0, 100, 0, 0),       // 1 px wide at ppn 0.01: dropped
        record(1, 500, 500, 0, 0),     // 5 px wide, on screen: kept
        record(1, 200_000, 500, 0, 0), // x = 1990 > viewport 1000: dropped
    ]);
    let mut v = FlameChart::init(1000, 500);
    v.zoom = Zoom { num: 1, den: 100 };
    let plan = v.paint(&data, 1000, 500);
    assert_eq!(plan.spans.len(), 1);
    assert_eq!(plan.spans[0].index, 1);
}

#[test]
fn thread_filter_restricts_spans() {
    let data = store_with(vec![
        record(1, 0, 1000, 0, 0),
        record(2, 2000, 1000, 0, 0),
    ]);
    let mut v = FlameChart::init(1000, 500);
    v.zoom = Zoom { num: 1, den: 100 };
    // filter position 2 selects thread id 2
    v.current_thread_id = 2;
    let plan = v.paint(&data, 1000, 500);
    assert_eq!(plan.spans.len(), 1);
    assert_eq!(plan.spans[0].index, 1);
}

#[test]
fn label_appears_only_past_128_pixels_with_a_known_method() {
    let mut data = store_with(vec![
        record(1, 0, 20_000, 5, 0),  // 200 px wide, method known
        record(1, 0, 20_000, 9, 1),  // 200 px wide, method unknown
        record(1, 0, 10_000, 5, 2),  // 100 px wide
    ]);
    data.method_index.insert(5, b"five".to_vec());
    let mut v = FlameChart::init(1000, 500);
    v.zoom = Zoom { num: 1, den: 100 };
    let plan = v.paint(&data, 1000, 500);
    assert_eq!(plan.spans.len(), 3);
    assert!(plan.spans[0].labeled);
    assert!(!plan.spans[1].labeled);
    assert!(!plan.spans[2].labeled);
}

#[test]
fn hover_reports_exactly_one_record_last_match_wins() {
    // two overlapping spans at the same depth; the cursor lies on both
    let data = store_with(vec![
        record(1, 0, 100_000, 0, 0),
        record(1, 0, 100_000, 1, 0),
        record(1, 900_000, 100, 1, 5),
    ]);
    let mut v = FlameChart::init(1000, 500);
    v.zoom = Zoom { num: 1, den: 100 };
    v.last_mouse = Point { x: 50, y: 10 };
    let plan = v.paint(&data, 1000, 500);
    assert_eq!(plan.hovered, Some(1));
    // moving the cursor off both clears the hover
    v.last_mouse = Point { x: 50, y: 300 };
    let plan2 = v.paint(&data, 1000, 500);
    assert_eq!(plan2.hovered, None);
}

#[test]
fn right_click_selects_the_first_hit_and_opens_the_context_menu() {
    let data = store_with(vec![
        record(1, 0, 100_000, 0, 0),
        record(1, 0, 100_000, 1, 0),
    ]);
    let mut v = FlameChart::init(1000, 500);
    v.zoom = Zoom { num: 1, den: 100 };
    let mut mx = MenuContext::new();
    v.event(
        &NavEvent::CursorMoved { pos: Point { x: 50, y: 10 } },
        &data,
        &mut mx,
    );
    let consumed = v.event(
        &NavEvent::MouseInput { button: NavButton::Right, released: true },
        &data,
        &mut mx,
    );
    assert!(consumed);
    assert_eq!(v.selected_index, Some(0));
    assert_eq!(mx.open_count(), 1);
    assert_eq!(mx.open_menus[0].tag, "call");
    assert_eq!(mx.open_menus[0].items, vec![String::from("zoom into view")]);
    // a right release over empty space hits nothing and is not consumed
    let mut v2 = FlameChart::init(1000, 500);
    v2.zoom = Zoom { num: 1, den: 100 };
    v2.last_mouse = Point { x: 900, y: 400 };
    let mut mx2 = MenuContext::new();
    let consumed2 = v2.event(
        &NavEvent::MouseInput { button: NavButton::Right, released: true },
        &data,
        &mut mx2,
    );
    assert!(!consumed2);
    assert_eq!(v2.selected_index, None);
    assert_eq!(mx2.open_count(), 0);
}

#[test]
fn zoom_into_view_fits_the_record_to_ninety_percent() {
    // elapsed E = 500 in a viewport W = 1000: E * ppn == 0.9 * W exactly,
    // and the left edge lands within one zoom step below 0.05 * W
    let data = store_with(vec![record(1, 1000, 500, 7, 2)]);
    let mut v = FlameChart::init(1000, 500);
    v.selected_index = Some(0);
    v.menu_selection(&data, &String::from("call"), 0);
    let z = v.zoom;
    assert_eq!(500 * z.num, 900 * z.den);
    let ppn = z.num as f64 / z.den as f64;
    assert!((500.0 * ppn - 900.0).abs() < 1e-9);
    let x = (1000 - v.offset_x) as f64 * ppn;
    assert!(x <= 50.0 && x > 50.0 - ppn);
    // an unknown tag changes nothing
    let before = (v.offset_x, v.zoom);
    v.menu_selection(&data, &String::from("other"), 0);
    assert_eq!((v.offset_x, v.zoom), before);
}

#[test]
fn arrow_keys_pan_a_tenth_of_the_viewport() {
    let data = store_with(vec![]);
    let mut v = FlameChart::init(1000, 500);
    v.zoom = Zoom { num: 1, den: 100 };
    let mut mx = MenuContext::new();
    v.event(
        &NavEvent::Key { key: NavKey::Right, released: false },
        &data,
        &mut mx,
    );
    // (0.1 * 1000 px) / 0.01 ppn = 10000 ns
    assert_eq!(v.offset_x, 10_000);
    v.event(
        &NavEvent::Key { key: NavKey::Left, released: false },
        &data,
        &mut mx,
    );
    v.event(
        &NavEvent::Key { key: NavKey::Left, released: false },
        &data,
        &mut mx,
    );
    assert_eq!(v.offset_x, -10_000);
    // painting clamps the offset back to the start of time
    v.paint(&data, 1000, 500);
    assert_eq!(v.offset_x, 0);
}

#[test]
fn up_and_down_scale_the_zoom_by_nine_tenths() {
    let data = store_with(vec![]);
    let mut v = FlameChart::init(1000, 500);
    let mut mx = MenuContext::new();
    v.event(
        &NavEvent::Key { key: NavKey::Up, released: false },
        &data,
        &mut mx,
    );
    assert_eq!(v.zoom, Zoom { num: 9, den: 200_000 });
    let mut v2 = FlameChart::init(1000, 500);
    v2.event(
        &NavEvent::Key { key: NavKey::Down, released: false },
        &data,
        &mut mx,
    );
    assert_eq!(v2.zoom, Zoom { num: 10, den: 180_000 });
}

#[test]
fn page_keys_cycle_the_thread_filter_on_release_only() {
    let data = store_with(vec![]);
    let mut v = FlameChart::init(1000, 500);
    let mut mx = MenuContext::new();
    v.event(
        &NavEvent::Key { key: NavKey::PageUp, released: false },
        &data,
        &mut mx,
    );
    assert_eq!(v.current_thread_id, 0);
    v.event(
        &NavEvent::Key { key: NavKey::PageUp, released: true },
        &data,
        &mut mx,
    );
    v.event(
        &NavEvent::Key { key: NavKey::PageUp, released: true },
        &data,
        &mut mx,
    );
    v.event(
        &NavEvent::Key { key: NavKey::PageUp, released: true },
        &data,
        &mut mx,
    );
    // clamped at the number of threads
    assert_eq!(v.current_thread_id, 2);
    v.event(
        &NavEvent::Key { key: NavKey::PageDown, released: true },
        &data,
        &mut mx,
    );
    assert_eq!(v.current_thread_id, 1);
    v.event(
        &NavEvent::Key { key: NavKey::PageDown, released: true },
        &data,
        &mut mx,
    );
    v.event(
        &NavEvent::Key { key: NavKey::PageDown, released: true },
        &data,
        &mut mx,
    );
    assert_eq!(v.current_thread_id, 0);
}

#[test]
fn dragging_with_the_left_button_pans_one_to_one() {
    let data = store_with(vec![]);
    let mut v = FlameChart::init(1000, 500);
    v.offset_x = 5000;
    let mut mx = MenuContext::new();
    v.event(
        &NavEvent::CursorMoved { pos: Point { x: 100, y: 10 } },
        &data,
        &mut mx,
    );
    v.event(
        &NavEvent::MouseInput { button: NavButton::Left, released: false },
        &data,
        &mut mx,
    );
    v.event(
        &NavEvent::CursorMoved { pos: Point { x: 60, y: 12 } },
        &data,
        &mut mx,
    );
    // (100 - 60) px / (1/20000) ppn + 5000 ns anchor
    assert_eq!(v.offset_x, 40 * 20_000 + 5000);
    v.event(
        &NavEvent::MouseInput { button: NavButton::Left, released: true },
        &data,
        &mut mx,
    );
    assert!(v.mouse_state.is_none());
    // with the button up, moving no longer pans
    let held = v.offset_x;
    v.event(
        &NavEvent::CursorMoved { pos: Point { x: 0, y: 0 } },
        &data,
        &mut mx,
    );
    assert_eq!(v.offset_x, held);
}

#[test]
fn wheel_nudges_the_zoom_additively() {
    let data = store_with(vec![]);
    let mut v = FlameChart::init(1000, 500);
    let mut mx = MenuContext::new();
    v.event(
        &NavEvent::Wheel { delta_milli: 1000, pixel: false },
        &data,
        &mut mx,
    );
    // 1/20000 + 1/100000 = 0.00005 + 0.00001 = 0.00006
    let ppn = v.zoom.num as f64 / v.zoom.den as f64;
    assert!((ppn - 0.00006).abs() < 1e-15);
    let mut v2 = FlameChart::init(1000, 500);
    v2.event(
        &NavEvent::Wheel { delta_milli: 500, pixel: true },
        &data,
        &mut mx,
    );
    // 0.00005 + 0.5 * 0.0001 = 0.00010
    let ppn2 = v2.zoom.num as f64 / v2.zoom.den as f64;
    assert!((ppn2 - 0.00010).abs() < 1e-15);
}

#[test]
fn reset_restores_origin_and_a_positive_zoom() {
    let mut v = FlameChart::init(1000, 500);
    v.offset_x = 123_456;
    v.zoom = Zoom { num: 77, den: 99 };
    v.reset();
    assert_eq!(v.offset_x, 0);
    assert_eq!(v.zoom, Zoom { num: 1, den: 20_000 });
    assert!(v.zoom.num > 0);
}

#[test]
fn paint_clamps_a_degenerate_zoom_to_the_floor() {
    let data = store_with(vec![]);
    let mut v = FlameChart::init(1000, 500);
    v.zoom = Zoom { num: 0, den: 1 };
    v.paint(&data, 1000, 500);
    assert_eq!(v.zoom, Zoom { num: 1, den: 1_000_000 });
    assert_eq!(v.bounds_w, 1000);
    // absurd viewport widths are clipped
    v.paint(&data, u32::MAX, 500);
    assert_eq!(v.bounds_w, MAX_DIM);
}

#[test]
fn status_reports_offset_percentage_and_thread() {
    let mut data = store_with(vec![]);
    data.abs_end_time = 77_777;
    let mut v = FlameChart::init(1000, 500);
    v.offset_x = 5000;
    let s = v.status(&data);
    assert_eq!(s.offset_x, 5000);
    // 5000 / 77777 = 6.42% -> 642 hundredths, truncated
    assert_eq!(s.pct_hundredths, 642);
    assert_eq!(s.thread, 0);
    v.current_thread_id = 2;
    assert_eq!(v.status(&data).thread, 2);
    data.abs_end_time = 0;
    assert_eq!(v.status(&data).pct_hundredths, 0);
}

#[test]
fn status_truncates_a_negative_offset_towards_zero() {
    let mut data = store_with(vec![]);
    data.abs_end_time = 77_777;
    let mut v = FlameChart::init(1000, 500);
    v.offset_x = -5000;
    // -5000 / 77777 = -6.42% -> -642 hundredths, truncated towards zero
    assert_eq!(v.status(&data).pct_hundredths, -642);
}

#[test]
fn method_hue_is_stable_and_bounded() {
    assert_eq!(method_hue(7), (7 * 823) % 1000);
    assert_eq!(method_hue(7), method_hue(7));
    for id in 0..100 {
        assert!(method_hue(id) < 1000);
    }
    assert_eq!(method_hue(u32::MAX), ((u32::MAX as u64 * 823) % 1000) as u32);
}
