//! Event routing between the menu stack and the active view.
//!
//! The host forwards each translated input event here.  Menus see the
//! event first and may report a selection: the "main" tag acts on the
//! shell itself (its second item resets the view, its first is reserved
//! for opening a file, which the host owns), any other tag goes to the
//! view.  The view then handles the event too; a right-button release
//! that the view did not consume opens the main context menu under the
//! cursor.

use vstd::prelude::*;
use crate::data::VizData;
use crate::event::{NavButton, NavEvent, Point};
use crate::menu::{menu_event_post, MenuContext};
use crate::view::{menu_selection_post, nav_event_post, FlameChart, VizView};

verus! {

/// The interactive state the host drives: the active view, the menu
/// stack, and the cursor's last position.
pub struct VizApp {
    pub view: VizView,
    pub mx: MenuContext,
    pub last_mouse: Point,
}

/// How one routed event steps the shell: the menus see the event and may
/// report a selection, the selection acts on the view, the view handles
/// the event, and an unconsumed right-button release opens the main menu.
pub open spec fn shell_event_post(pre: VizApp, post: VizApp, e: NavEvent, data: VizData) -> bool {
    exists|mx1: MenuContext, sel: Option<(String, usize)>, v1: VizView, v2: VizView, mx2:
        MenuContext, consumed: bool|
        {
            &&& #[trigger] menu_event_post(pre.mx, mx1, e, sel)
            &&& #[trigger] nav_event_post(
                v1.as_flame(),
                v2.as_flame(),
                e,
                data.calls@,
                data.thread_ids@,
                mx1,
                mx2,
                consumed,
            )
            &&& (match sel {
                Some(t) => {
                    if t.0@ == "main"@ {
                        v1.as_flame() == (if t.1 == 1 {
                            FlameChart {
                                offset_x: 0,
                                zoom: crate::zoom::Zoom { num: 1, den: 20000 },
                                ..pre.view.as_flame()
                            }
                        } else {
                            pre.view.as_flame()
                        })
                    } else {
                        menu_selection_post(
                            pre.view.as_flame(),
                            v1.as_flame(),
                            data.calls@,
                            t.0@,
                            t.1,
                        )
                    }
                },
                None => v1 == pre.view,
            })
            &&& post.view == v2
            &&& (if !consumed && e == (NavEvent::MouseInput {
                button: NavButton::Right,
                released: true,
            }) {
                &&& post.mx.open_menus@.len() == mx2.open_menus@.len() + 1
                &&& forall|k: int|
                    0 <= k < mx2.open_menus@.len() ==> post.mx.open_menus@[k]
                        == mx2.open_menus@[k]
                &&& post.mx.open_menus@.last().tag@ == "main"@
                &&& post.mx.open_menus@.last().items@.len() == 2
                &&& post.mx.open_menus@.last().items@[0]@ == "load file"@
                &&& post.mx.open_menus@.last().items@[1]@ == "reset view"@
                &&& post.mx.open_menus@.last().location == post.last_mouse
            } else {
                post.mx == mx2
            })
        }
}

impl VizApp {
    pub open spec fn wf(&self) -> bool {
        &&& self.view.wf()
        &&& self.mx.wf()
    }

    /// A shell with a fresh flame chart over the viewport and no menus.
    pub fn init(w: u32, h: u32) -> (a: VizApp)
        ensures
            a.wf(),
            a.view.as_flame() == FlameChart::init_spec(w, h),
            a.mx.open_menus@.len() == 0,
            a.last_mouse == (Point { x: 0, y: 0 }),
    {
        VizApp {
            view: VizView::flame(w, h),
            mx: MenuContext::new(),
            last_mouse: Point { x: 0, y: 0 },
        }
    }

    /// Routes one event, as the host's event loop would.
    pub fn event(&mut self, e: &NavEvent, data: &VizData)
        requires
            old(self).wf(),
            old(self).view.filter_ok(data.thread_ids@),
        ensures
            final(self).wf(),
            final(self).last_mouse == (match *e {
                NavEvent::CursorMoved { pos } => pos,
                _ => old(self).last_mouse,
            }),
            shell_event_post(*old(self), *final(self), *e, *data),
    {
        match e {
            NavEvent::CursorMoved { pos } => {
                self.last_mouse = *pos;
            },
            _ => {},
        }
        let sel = self.mx.event(e);
        let ghost mx1 = self.mx;
        let ghost sel_g = sel;
        match sel {
            Some((tag, i)) => {
                let main_tag = String::from_str("main");
                if tag.eq(&main_tag) {
                    if i == 1 {
                        self.view.reset();
                    }
                } else {
                    self.view.menu_selection(data, &tag, i);
                }
            },
            None => {},
        }
        let ghost v1 = self.view;
        let consumed = self.view.event(e, data, &mut self.mx);
        let ghost v2 = self.view;
        let ghost mx2 = self.mx;
        let mut fallback = false;
        match e {
            NavEvent::MouseInput { button: NavButton::Right, released: true } => {
                if !consumed {
                    fallback = true;
                }
            },
            _ => {},
        }
        if fallback {
            let mut labels: Vec<String> = Vec::new();
            labels.push(String::from_str("load file"));
            labels.push(String::from_str("reset view"));
            self.mx.popup(labels, self.last_mouse, String::from_str("main"));
        }
        proof {
            assert(shell_event_post(*old(self), *self, *e, *data)) by {
                assert(menu_event_post(old(self).mx, mx1, *e, sel_g));
                assert(nav_event_post(
                    v1.as_flame(),
                    v2.as_flame(),
                    *e,
                    data.calls@,
                    data.thread_ids@,
                    mx1,
                    mx2,
                    consumed,
                ));
            }
        }
    }
}

} // verus!
