use viz::data::VizData;
use viz::event::{NavButton, NavEvent, Point, Size};
use viz::menu::MenuContext;
use viz::shell::VizApp;
use viz::view::VizView;
use viz::zoom::Zoom;

fn sizes_for(mx: &MenuContext, w: u32, h: u32) -> Vec<Vec<Size>> {
    let mut all = Vec::new();
    for m in &mx.open_menus {
        let mut one = Vec::new();
        for _ in &m.items {
            one.push(Size { w, h });
        }
        all.push(one);
    }
    all
}

#[test]
fn menu_flow_returns_the_tag_and_item_and_closes() {
    let mut mx = MenuContext::new();
    mx.popup(
        vec![String::from("a"), String::from("b")],
        Point { x: 100, y: 100 },
        String::from("t"),
    );
    assert_eq!(mx.open_count(), 1);
    let draws = mx.paint(&sizes_for(&mx, 20, 16));
    assert_eq!(draws.len(), 1);
    // box anchored 4 up and left, wide enough for the widest label
    assert_eq!(draws[0].bounds.x, 96);
    assert_eq!(draws[0].bounds.y, 96);
    assert_eq!(draws[0].bounds.w, 24);
    assert_eq!(draws[0].bounds.h, 36);
    assert_eq!(draws[0].items.len(), 2);
    // a release-click on item "b"'s row reports ("t", 1)
    mx.event(&NavEvent::CursorMoved { pos: Point { x: 100, y: 120 } });
    let picked = mx.event(&NavEvent::MouseInput { button: NavButton::Left, released: true });
    assert_eq!(picked, Some((String::from("t"), 1)));
    assert_eq!(mx.open_count(), 0);
}

#[test]
fn release_outside_all_menus_closes_them_without_a_selection() {
    let mut mx = MenuContext::new();
    mx.popup(
        vec![String::from("a"), String::from("b")],
        Point { x: 100, y: 100 },
        String::from("t"),
    );
    mx.paint(&sizes_for(&mx, 20, 16));
    mx.event(&NavEvent::CursorMoved { pos: Point { x: 500, y: 500 } });
    let picked = mx.event(&NavEvent::MouseInput { button: NavButton::Left, released: true });
    assert_eq!(picked, None);
    assert_eq!(mx.open_count(), 0);
}

#[test]
fn release_between_rows_keeps_the_menus_open() {
    let mut mx = MenuContext::new();
    mx.popup(
        vec![String::from("a"), String::from("b")],
        Point { x: 100, y: 100 },
        String::from("t"),
    );
    mx.paint(&sizes_for(&mx, 20, 16));
    // (100, 100) lies in the menu's box but on no row: rows begin strictly
    // below the anchor line
    mx.event(&NavEvent::CursorMoved { pos: Point { x: 100, y: 100 } });
    let picked = mx.event(&NavEvent::MouseInput { button: NavButton::Left, released: true });
    assert_eq!(picked, None);
    assert_eq!(mx.open_count(), 1);
}

#[test]
fn hovered_row_is_highlighted_in_the_draws() {
    let mut mx = MenuContext::new();
    mx.popup(
        vec![String::from("a"), String::from("b")],
        Point { x: 100, y: 100 },
        String::from("t"),
    );
    mx.paint(&sizes_for(&mx, 20, 16));
    // rows stack from the anchor line: item 0 spans (100, 116)
    mx.event(&NavEvent::CursorMoved { pos: Point { x: 100, y: 108 } });
    let draws = mx.paint(&sizes_for(&mx, 20, 16));
    assert!(draws[0].items[0].highlighted);
    assert!(!draws[0].items[1].highlighted);
    assert_eq!(draws[0].items[1].y, 114);
    assert_eq!(draws[0].items[1].h, 16);
}

#[test]
fn measurement_happens_once_and_is_cached() {
    let mut mx = MenuContext::new();
    mx.popup(vec![String::from("a")], Point { x: 10, y: 10 }, String::from("t"));
    let first = mx.paint(&sizes_for(&mx, 20, 16));
    // later paints hand in other extents; the cached box stays
    let second = mx.paint(&sizes_for(&mx, 200, 60));
    assert_eq!(first[0].bounds, second[0].bounds);
}

#[test]
fn menus_stack_and_the_first_hit_in_stack_order_wins() {
    let mut mx = MenuContext::new();
    mx.popup(vec![String::from("a")], Point { x: 100, y: 100 }, String::from("one"));
    mx.popup(vec![String::from("b")], Point { x: 104, y: 104 }, String::from("two"));
    assert_eq!(mx.open_count(), 2);
    mx.paint(&sizes_for(&mx, 20, 16));
    // (104, 106) lies in both boxes; the first menu in the stack is active
    mx.event(&NavEvent::CursorMoved { pos: Point { x: 104, y: 106 } });
    let picked = mx.event(&NavEvent::MouseInput { button: NavButton::Left, released: true });
    assert_eq!(picked, Some((String::from("one"), 0)));
    assert_eq!(mx.open_count(), 0);
}

#[test]
fn shell_opens_the_main_menu_on_an_unconsumed_right_release() {
    let data = VizData::default();
    let mut app = VizApp::init(800, 600);
    app.event(
        &NavEvent::CursorMoved { pos: Point { x: 40, y: 40 } },
        &data,
    );
    app.event(
        &NavEvent::MouseInput { button: NavButton::Right, released: true },
        &data,
    );
    assert_eq!(app.mx.open_count(), 1);
    assert_eq!(app.mx.open_menus[0].tag, "main");
    assert_eq!(
        app.mx.open_menus[0].items,
        vec![String::from("load file"), String::from("reset view")]
    );
    assert_eq!(app.mx.open_menus[0].location, Point { x: 40, y: 40 });
}

#[test]
fn shell_main_menu_reset_restores_the_view() {
    let data = VizData::default();
    let mut app = VizApp::init(800, 600);
    match &mut app.view {
        VizView::Flame(v) => {
            v.offset_x = 42_000;
            v.zoom = Zoom { num: 3, den: 7 };
        },
    }
    app.event(
        &NavEvent::CursorMoved { pos: Point { x: 40, y: 40 } },
        &data,
    );
    app.event(
        &NavEvent::MouseInput { button: NavButton::Right, released: true },
        &data,
    );
    let sizes = vec![vec![Size { w: 60, h: 16 }, Size { w: 70, h: 16 }]];
    app.mx.paint(&sizes);
    // hover the "reset view" row: rows stack from y = 40
    app.event(
        &NavEvent::CursorMoved { pos: Point { x: 40, y: 60 } },
        &data,
    );
    app.event(
        &NavEvent::MouseInput { button: NavButton::Left, released: true },
        &data,
    );
    match &app.view {
        VizView::Flame(v) => {
            assert_eq!(v.offset_x, 0);
            assert_eq!(v.zoom, Zoom { num: 1, den: 20_000 });
        },
    }
    assert_eq!(app.mx.open_count(), 0);
}
