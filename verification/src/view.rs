//! The flame-chart view: pan/zoom state, coordinate mapping, hit-testing.
//!
//! Model space is nanoseconds and nesting depth; screen space is pixels.
//! With `offset_x` in nanoseconds and zoom `z`, a record maps to the
//! rectangle `x = (start_time - offset_x) * z`, `y = depth * 34`,
//! `w = elapsed_time * z`, `h = 32`.  All coordinates are kept as exact
//! rationals over the zoom's denominator.

use vstd::prelude::*;
use crate::data::{CallRecord, VizData};
use crate::event::{NavButton, NavEvent, NavKey, Point};
use crate::menu::MenuContext;
use crate::zoom::{norm_spec, Zoom};

verus! {

/// Viewport dimensions are clipped to this many pixels.
pub const MAX_DIM: u32 = 0x100000;

/// An integer clipped into `i64` range.
pub open spec fn clamp_i64(v: int) -> int {
    if v > i64::MAX {
        i64::MAX as int
    } else if v < i64::MIN {
        i64::MIN as int
    } else {
        v
    }
}

/// Division rounding towards zero; `b` must be positive.
pub open spec fn trunc_div(a: int, b: int) -> int {
    if a >= 0 {
        a / b
    } else {
        -((-a) / b)
    }
}

/// The numerator of a span's left screen edge, over `z.den`.
pub open spec fn span_x_num(c: CallRecord, off: int, z: Zoom) -> int {
    (c.start_time - off) * z.num
}

/// The numerator of a span's pixel width, over `z.den`.
pub open spec fn span_w_num(c: CallRecord, z: Zoom) -> int {
    c.elapsed_time * z.num
}

/// The record belongs to the active thread filter; zero means all threads.
pub open spec fn passes_filter(c: CallRecord, f: u32) -> bool {
    f == 0 || c.thread_id == f
}

/// The span survives culling: at least two pixels wide and not entirely
/// left or right of a viewport `w_px` pixels wide.
pub open spec fn visible_span(c: CallRecord, off: int, z: Zoom, w_px: int) -> bool {
    &&& span_w_num(c, z) >= 2 * z.den
    &&& span_x_num(c, off, z) + span_w_num(c, z) >= 0
    &&& span_x_num(c, off, z) <= w_px * z.den
}

/// The span passes the filter and survives culling.
pub open spec fn span_shown(c: CallRecord, f: u32, off: int, z: Zoom, w_px: int) -> bool {
    passes_filter(c, f) && visible_span(c, off, z, w_px)
}

/// The cursor lies on the span's rectangle; edges count as on it.
pub open spec fn cursor_on(c: CallRecord, off: int, z: Zoom, m: Point) -> bool {
    &&& span_x_num(c, off, z) <= m.x * z.den
    &&& m.x * z.den <= span_x_num(c, off, z) + span_w_num(c, z)
    &&& 34 * c.depth <= m.y
    &&& m.y <= 34 * c.depth + 32
}

/// Shown and under the cursor: a candidate for hover or selection.
pub open spec fn span_hit(c: CallRecord, f: u32, off: int, z: Zoom, w_px: int, m: Point) -> bool {
    span_shown(c, f, off, z, w_px) && cursor_on(c, off, z, m)
}

/// One span as the host should draw it: the record's index, the exact
/// rational screen geometry (`x = x_num / den`, `w = w_num / den`,
/// height fixed at 32), and whether the method name fits inside.
#[derive(Debug, Copy, Clone, PartialEq, Eq, Structural)]
pub struct SpanBox {
    pub index: usize,
    pub x_num: i128,
    pub w_num: i128,
    pub den: i64,
    pub y: u64,
    pub labeled: bool,
}

/// The box a shown record maps to; `named` says whether its method id
/// resolves in the method table, and a label fits when the span is wider
/// than 128 pixels.
pub open spec fn span_box_of(i: int, c: CallRecord, off: int, z: Zoom, named: bool) -> SpanBox {
    SpanBox {
        index: i as usize,
        x_num: span_x_num(c, off, z) as i128,
        w_num: span_w_num(c, z) as i128,
        den: z.den,
        y: (34 * c.depth) as u64,
        labeled: named && span_w_num(c, z) > 128 * z.den,
    }
}

/// What one frame draws: every shown span in record order, and the record
/// the cursor hovers, if any.
pub struct FramePlan {
    pub spans: Vec<SpanBox>,
    pub hovered: Option<usize>,
}

/// What the status line reports: the pan offset in nanoseconds, that
/// offset as hundredths of a percent of the trace's end time, and the
/// active thread id (zero for all).
#[derive(Debug, Copy, Clone, PartialEq, Eq, Structural)]
pub struct StatusInfo {
    pub offset_x: i64,
    pub pct_hundredths: i64,
    pub thread: u32,
}

/// The flame chart's navigation state.
pub struct FlameChart {
    pub current_thread_id: usize,
    pub offset_x: i64,
    pub zoom: Zoom,
    pub last_mouse: Point,
    pub mouse_state: Option<(NavButton, Point, i64)>,
    pub bounds_w: u32,
    pub bounds_h: u32,
    pub selected_index: Option<usize>,
}

impl FlameChart {
    pub open spec fn wf(&self) -> bool {
        &&& self.zoom.wf()
        &&& self.bounds_w <= MAX_DIM
    }

    /// The id the filter selects: the id at the filter position, or zero
    /// for all threads.
    pub open spec fn filter_of(&self, threads: Seq<u32>) -> u32 {
        if self.current_thread_id == 0 {
            0
        } else {
            threads[self.current_thread_id - 1]
        }
    }

    /// What a fresh view holds: no pan, the initial zoom, no drag, no
    /// selection, all threads shown.
    pub open spec fn init_spec(w: u32, h: u32) -> FlameChart {
        FlameChart {
            current_thread_id: 0,
            offset_x: 0,
            zoom: Zoom { num: 1, den: 20000 },
            last_mouse: Point { x: 0, y: 0 },
            mouse_state: None,
            bounds_w: if w <= MAX_DIM {
                w
            } else {
                MAX_DIM
            },
            bounds_h: h,
            selected_index: None,
        }
    }

    /// A fresh view over a viewport.
    pub fn init(w: u32, h: u32) -> (v: FlameChart)
        ensures
            v.current_thread_id == 0,
            v.offset_x == 0,
            v.zoom == (Zoom { num: 1, den: 20000 }),
            v.last_mouse == (Point { x: 0, y: 0 }),
            v.mouse_state is None,
            v.bounds_w == (if w <= MAX_DIM {
                w
            } else {
                MAX_DIM
            }),
            v.bounds_h == h,
            v.selected_index is None,
            v == FlameChart::init_spec(w, h),
            v.wf(),
    {
        FlameChart {
            current_thread_id: 0,
            offset_x: 0,
            zoom: Zoom::initial(),
            last_mouse: Point { x: 0, y: 0 },
            mouse_state: None,
            bounds_w: if w <= MAX_DIM {
                w
            } else {
                MAX_DIM
            },
            bounds_h: h,
            selected_index: None,
        }
    }

    /// Restores the origin and a sane positive zoom; everything else
    /// stays.
    pub fn reset(&mut self)
        ensures
            *final(self) == (FlameChart {
                offset_x: 0,
                zoom: Zoom { num: 1, den: 20000 },
                ..*old(self)
            }),
            old(self).wf() ==> final(self).wf(),
    {
        self.offset_x = 0;
        self.zoom = Zoom::initial();
    }

    /// The status line's numbers: the offset, the offset as hundredths of
    /// a percent of the trace's end time (zero when the end time is zero),
    /// and the active thread id.
    pub fn status(&self, data: &VizData) -> (r: StatusInfo)
        requires
            self.current_thread_id <= data.thread_ids@.len(),
        ensures
            r.offset_x == self.offset_x,
            r.thread == self.filter_of(data.thread_ids@),
            data.abs_end_time == 0 ==> r.pct_hundredths == 0,
            data.abs_end_time > 0 ==> r.pct_hundredths == clamp_i64(
                trunc_div(self.offset_x * 10000, data.abs_end_time as int),
            ),
    {
        let thread: u32 = if self.current_thread_id == 0 {
            0
        } else {
            data.thread_ids[self.current_thread_id - 1]
        };
        let pct: i64 = if data.abs_end_time == 0 {
            0
        } else {
            let o: i128 = (self.offset_x as i128) * 10000;
            let e: i128 = data.abs_end_time as i128;
            let q: i128 = if o >= 0 {
                o / e
            } else {
                -((-o) / e)
            };
            clamp_to_i64(q)
        };
        StatusInfo { offset_x: self.offset_x, pct_hundredths: pct, thread }
    }

    /// Handles the context action on the remembered record: "zoom into
    /// view".  The zoom becomes `0.9 * viewport / elapsed`, and the offset
    /// puts the record's left edge near five percent of the viewport.  A
    /// stale selection, a zero-length record, an empty viewport, or an
    /// unknown tag or action leaves the view unchanged.
    pub fn menu_selection(&mut self, data: &VizData, tag: &String, sel: usize)
        requires
            old(self).wf(),
        ensures
            final(self).wf(),
            menu_selection_post(*old(self), *final(self), data.calls@, tag@, sel),
    {
        let call_tag = String::from_str("call");
        if !(tag.eq(&call_tag) && sel == 0) {
            return ;
        }
        let i = match self.selected_index {
            Some(i) => i,
            None => {
                return ;
            },
        };
        if i >= data.calls.len() {
            return ;
        }
        let c = data.calls[i];
        if !(c.elapsed_time > 0 && self.bounds_w > 0) {
            return ;
        }
        let z = Zoom::normalize(9 * (self.bounds_w as i128), 10 * (c.elapsed_time as i128));
        self.zoom = z;
        if z.num > 0 {
            proof {
                assert(0 <= (self.bounds_w as int) * (z.den as int) <= 0x100000 * 0x1_0000_0000_0000)
                    by (nonlinear_arith)
                    requires
                        0 <= self.bounds_w <= 0x100000,
                        1 <= z.den <= 0x1_0000_0000_0000,
                ;
            }
            let step: i128 = ((self.bounds_w as i128) * (z.den as i128)) / (20 * (z.num as i128));
            self.offset_x = clamp_to_i64((c.start_time as i128) - step);
        } else {
            self.offset_x = clamp_to_i64(c.start_time as i128);
        }
    }

    /// Handles one input event: arrow keys pan and zoom, page keys cycle
    /// the thread filter on release, dragging with the left button pans
    /// one-to-one with the time axis, the wheel nudges the zoom, and a
    /// right-button release over a shown record remembers it and asks for
    /// a context menu, consuming the event.
    pub fn event(&mut self, e: &NavEvent, data: &VizData, menus: &mut MenuContext) -> (consumed:
        bool)
        requires
            old(self).wf(),
            old(menus).wf(),
            old(self).current_thread_id <= data.thread_ids@.len(),
        ensures
            final(self).wf(),
            final(menus).wf(),
            nav_event_post(
                *old(self),
                *final(self),
                *e,
                data.calls@,
                data.thread_ids@,
                *old(menus),
                *final(menus),
                consumed,
            ),
    {
        match e {
            NavEvent::Key { key, released } => {
                match key {
                    NavKey::Left => {
                        let eff = self.zoom.clamped();
                        proof {
                            assert(0 <= (self.bounds_w as int) * (eff.den as int) <= 0x100000
                                * 0x1_0000_0000_0000) by (nonlinear_arith)
                                requires
                                    0 <= self.bounds_w <= 0x100000,
                                    1 <= eff.den <= 0x1_0000_0000_0000,
                            ;
                        }
                        let step: i128 = ((self.bounds_w as i128) * (eff.den as i128)) / (10 * (
                        eff.num as i128));
                        self.offset_x = clamp_to_i64((self.offset_x as i128) - step);
                    },
                    NavKey::Right => {
                        let eff = self.zoom.clamped();
                        proof {
                            assert(0 <= (self.bounds_w as int) * (eff.den as int) <= 0x100000
                                * 0x1_0000_0000_0000) by (nonlinear_arith)
                                requires
                                    0 <= self.bounds_w <= 0x100000,
                                    1 <= eff.den <= 0x1_0000_0000_0000,
                            ;
                        }
                        let step: i128 = ((self.bounds_w as i128) * (eff.den as i128)) / (10 * (
                        eff.num as i128));
                        self.offset_x = clamp_to_i64((self.offset_x as i128) + step);
                    },
                    NavKey::Up => {
                        self.zoom = self.zoom.times_nine_tenths();
                    },
                    NavKey::Down => {
                        self.zoom = self.zoom.times_ten_ninths();
                    },
                    NavKey::PageUp => {
                        if *released {
                            if self.current_thread_id < data.thread_ids.len() {
                                self.current_thread_id = self.current_thread_id + 1;
                            }
                        }
                    },
                    NavKey::PageDown => {
                        if *released {
                            if self.current_thread_id > 0 {
                                self.current_thread_id = self.current_thread_id - 1;
                            }
                        }
                    },
                    NavKey::Other => {},
                }
                false
            },
            NavEvent::CursorMoved { pos } => {
                let p = *pos;
                match self.mouse_state {
                    Some((NavButton::Left, cp, co)) => {
                        let eff = self.zoom.clamped();
                        let dx: i64 = (cp.x as i64) - (p.x as i64);
                        proof {
                            assert(-0x2_0000_0000 * 0x1_0000_0000_0000 <= (dx as int) * (
                            eff.den as int) <= 0x2_0000_0000 * 0x1_0000_0000_0000)
                                by (nonlinear_arith)
                                requires
                                    -0x2_0000_0000 <= dx <= 0x2_0000_0000,
                                    1 <= eff.den <= 0x1_0000_0000_0000,
                            ;
                        }
                        let prod: i128 = (dx as i128) * (eff.den as i128);
                        let q: i128 = if prod >= 0 {
                            prod / (eff.num as i128)
                        } else {
                            -((-prod) / (eff.num as i128))
                        };
                        self.offset_x = clamp_to_i64(q + (co as i128));
                    },
                    _ => {},
                }
                self.last_mouse = p;
                false
            },
            NavEvent::MouseInput { button, released } => {
                let b = *button;
                let rel = *released;
                self.mouse_state = if !rel {
                    Some((b, self.last_mouse, self.offset_x))
                } else {
                    None
                };
                if rel && b == NavButton::Right {
                    let f: u32 = if self.current_thread_id == 0 {
                        0
                    } else {
                        data.thread_ids[self.current_thread_id - 1]
                    };
                    let n = data.calls.len();
                    let mut hit: Option<usize> = None;
                    let mut i: usize = 0;
                    while i < n
                        invariant_except_break
                            0 <= i <= n,
                            n == data.calls@.len(),
                            self.zoom.wf(),
                            self.bounds_w <= MAX_DIM,
                            hit is None,
                            forall|k: int|
                                0 <= k < i ==> !span_hit(
                                    #[trigger] data.calls@[k],
                                    f,
                                    self.offset_x as int,
                                    self.zoom,
                                    self.bounds_w as int,
                                    self.last_mouse,
                                ),
                        ensures
                            self.zoom.wf(),
                            hit matches Some(i0) ==> i0 < n && span_hit(
                                data.calls@[i0 as int],
                                f,
                                self.offset_x as int,
                                self.zoom,
                                self.bounds_w as int,
                                self.last_mouse,
                            ) && forall|k: int|
                                0 <= k < i0 ==> !span_hit(
                                    #[trigger] data.calls@[k],
                                    f,
                                    self.offset_x as int,
                                    self.zoom,
                                    self.bounds_w as int,
                                    self.last_mouse,
                                ),
                            hit is None ==> forall|k: int|
                                0 <= k < n ==> !span_hit(
                                    #[trigger] data.calls@[k],
                                    f,
                                    self.offset_x as int,
                                    self.zoom,
                                    self.bounds_w as int,
                                    self.last_mouse,
                                ),
                        decreases n - i,
                    {
                        let c = data.calls[i];
                        if shown_test(&c, f, self.offset_x, self.zoom, self.bounds_w)
                            && cursor_test(&c, self.offset_x, self.zoom, self.last_mouse) {
                            hit = Some(i);
                            break ;
                        }
                        i = i + 1;
                    }
                    match hit {
                        Some(i0) => {
                            self.selected_index = Some(i0);
                            let mut labels: Vec<String> = Vec::new();
                            labels.push(String::from_str("zoom into view"));
                            menus.popup(labels, self.last_mouse, String::from_str("call"));
                            true
                        },
                        None => {
                            self.selected_index = None;
                            false
                        },
                    }
                } else {
                    false
                }
            },
            NavEvent::Wheel { delta_milli, pixel } => {
                self.zoom = self.zoom.nudged(*delta_milli, *pixel);
                false
            },
        }
    }

    /// Computes one frame.  The zoom is first clamped to its positive
    /// floor and the offset to the start of time, so nothing before time
    /// zero is shown; then every record passing the thread filter and the
    /// culling rules becomes a span box, in record order, and the last
    /// shown record under the cursor is reported hovered.
    pub fn paint(&mut self, data: &VizData, w: u32, h: u32) -> (plan: FramePlan)
        requires
            old(self).wf(),
            old(self).current_thread_id <= data.thread_ids@.len(),
        ensures
            final(self).wf(),
            paint_post(
                *old(self),
                *final(self),
                data.calls@,
                data.method_index@.dom(),
                data.thread_ids@,
                w,
                h,
                plan.spans@.map_values(|sb: SpanBox| sb),
                plan.hovered,
            ),
    {
        self.zoom = self.zoom.clamped();
        if self.offset_x < 0 {
            self.offset_x = 0;
        }
        self.bounds_w = if w <= MAX_DIM {
            w
        } else {
            MAX_DIM
        };
        self.bounds_h = h;
        let f: u32 = if self.current_thread_id == 0 {
            0
        } else {
            data.thread_ids[self.current_thread_id - 1]
        };
        let ghost sf = *self;
        let mut spans: Vec<SpanBox> = Vec::new();
        let mut hovered: Option<usize> = None;
        let n = data.calls.len();
        let mut i: usize = 0;
        while i < n
            invariant
                0 <= i <= n,
                n == data.calls@.len(),
                *self == sf,
                sf.zoom.wf(),
                sf.zoom.num >= 1,
                sf.bounds_w <= MAX_DIM,
                f == sf.filter_of(data.thread_ids@),
                forall|k: int|
                    0 <= k < spans@.len() ==> {
                        let sb = #[trigger] spans@[k];
                        &&& sb.index < i
                        &&& span_shown(
                            data.calls@[sb.index as int],
                            f,
                            sf.offset_x as int,
                            sf.zoom,
                            sf.bounds_w as int,
                        )
                        &&& sb == span_box_of(
                            sb.index as int,
                            data.calls@[sb.index as int],
                            sf.offset_x as int,
                            sf.zoom,
                            data.method_index@.dom().contains(
                                data.calls@[sb.index as int].method_id,
                            ),
                        )
                    },
                forall|k1: int, k2: int|
                    0 <= k1 < k2 < spans@.len() ==> (#[trigger] spans@[k1]).index < (
                    #[trigger] spans@[k2]).index,
                forall|i2: int|
                    0 <= i2 < i && span_shown(
                        #[trigger] data.calls@[i2],
                        f,
                        sf.offset_x as int,
                        sf.zoom,
                        sf.bounds_w as int,
                    ) ==> exists|k: int|
                        0 <= k < spans@.len() && (#[trigger] spans@[k]).index == i2,
                match hovered {
                    Some(i2) => i2 < i && span_hit(
                        data.calls@[i2 as int],
                        f,
                        sf.offset_x as int,
                        sf.zoom,
                        sf.bounds_w as int,
                        sf.last_mouse,
                    ) && forall|j: int|
                        i2 < j < i ==> !span_hit(
                            #[trigger] data.calls@[j],
                            f,
                            sf.offset_x as int,
                            sf.zoom,
                            sf.bounds_w as int,
                            sf.last_mouse,
                        ),
                    None => forall|j: int|
                        0 <= j < i ==> !span_hit(
                            #[trigger] data.calls@[j],
                            f,
                            sf.offset_x as int,
                            sf.zoom,
                            sf.bounds_w as int,
                            sf.last_mouse,
                        ),
                },
            decreases n - i,
        {
            let c = data.calls[i];
            if shown_test(&c, f, self.offset_x, self.zoom, self.bounds_w) {
                let named = data.method_index.get(&c.method_id).is_some();
                let num = self.zoom.num as i128;
                proof {
                    assert(-0x2_0000_0000_0000_0000_0000_0000 <= (c.elapsed_time as int) * (
                    sf.zoom.num as int) <= 0x2_0000_0000_0000_0000_0000_0000 && -0x4_0000_0000_0000_0000_0000_0000
                        <= (c.start_time - sf.offset_x) * (sf.zoom.num as int)
                        <= 0x4_0000_0000_0000_0000_0000_0000) by (nonlinear_arith)
                        requires
                            0 <= c.elapsed_time < 0x1_0000_0000_0000_0000,
                            0 <= c.start_time < 0x1_0000_0000_0000_0000,
                            -0x8000_0000_0000_0000 <= sf.offset_x < 0x8000_0000_0000_0000,
                            -0x1_0000_0000 <= sf.zoom.num <= 0x1_0000_0000,
                    ;
                }
                let x_num: i128 = ((c.start_time as i128) - (self.offset_x as i128)) * num;
                let w_num: i128 = (c.elapsed_time as i128) * num;
                let y: u64 = 34u64 * (c.depth as u64);
                let labeled = named && w_num > 128 * (self.zoom.den as i128);
                let ghost spans0 = spans@;
                spans.push(SpanBox { index: i, x_num, w_num, den: self.zoom.den, y, labeled });
                proof {
                    assert(spans@[spans@.len() - 1].index == i);
                    assert forall|i2: int|
                        0 <= i2 < i + 1 && span_shown(
                            #[trigger] data.calls@[i2],
                            f,
                            sf.offset_x as int,
                            sf.zoom,
                            sf.bounds_w as int,
                        ) implies exists|k: int|
                        0 <= k < spans@.len() && (#[trigger] spans@[k]).index == i2 by {
                        if i2 == i {
                            assert(spans@[spans@.len() - 1].index == i2);
                        } else {
                            let k0 = choose|k: int|
                                0 <= k < spans0.len() && (#[trigger] spans0[k]).index == i2;
                            assert(spans@[k0].index == i2);
                        }
                    }
                }
                if cursor_test(&c, self.offset_x, self.zoom, self.last_mouse) {
                    hovered = Some(i);
                }
            }
            i = i + 1;
        }
        proof {
            assert(spans@.map_values(|sb: SpanBox| sb) =~= spans@);
        }
        FramePlan { spans, hovered }
    }
}

/// Filter and culling test for one record.
fn shown_test(c: &CallRecord, f: u32, off: i64, z: Zoom, w_px: u32) -> (r: bool)
    requires
        z.wf(),
        w_px <= MAX_DIM,
    ensures
        r == span_shown(*c, f, off as int, z, w_px as int),
{
    if !(f == 0 || c.thread_id == f) {
        return false;
    }
    proof {
        assert(-0x2_0000_0000_0000_0000_0000_0000 <= (c.elapsed_time as int) * (z.num as int)
            <= 0x2_0000_0000_0000_0000_0000_0000 && -0x4_0000_0000_0000_0000_0000_0000 <= (
        c.start_time - off) * (z.num as int) <= 0x4_0000_0000_0000_0000_0000_0000 && 0 <= (
        w_px as int) * (z.den as int) <= 0x100000 * 0x1_0000_0000_0000) by (nonlinear_arith)
            requires
                0 <= c.elapsed_time < 0x1_0000_0000_0000_0000,
                0 <= c.start_time < 0x1_0000_0000_0000_0000,
                -0x8000_0000_0000_0000 <= off < 0x8000_0000_0000_0000,
                -0x1_0000_0000 <= z.num <= 0x1_0000_0000,
                1 <= z.den <= 0x1_0000_0000_0000,
                0 <= w_px <= 0x100000,
        ;
    }
    let num = z.num as i128;
    let den = z.den as i128;
    let w_num: i128 = (c.elapsed_time as i128) * num;
    let x_num: i128 = ((c.start_time as i128) - (off as i128)) * num;
    w_num >= 2 * den && x_num + w_num >= 0 && x_num <= (w_px as i128) * den
}

/// Cursor containment test for one record's rectangle.
fn cursor_test(c: &CallRecord, off: i64, z: Zoom, m: Point) -> (r: bool)
    requires
        z.wf(),
    ensures
        r == cursor_on(*c, off as int, z, m),
{
    proof {
        assert(-0x2_0000_0000_0000_0000_0000_0000 <= (c.elapsed_time as int) * (z.num as int)
            <= 0x2_0000_0000_0000_0000_0000_0000 && -0x4_0000_0000_0000_0000_0000_0000 <= (
        c.start_time - off) * (z.num as int) <= 0x4_0000_0000_0000_0000_0000_0000 && -0x1_0000_0000
            * 0x1_0000_0000_0000 <= (m.x as int) * (z.den as int) <= 0x1_0000_0000
            * 0x1_0000_0000_0000) by (nonlinear_arith)
            requires
                0 <= c.elapsed_time < 0x1_0000_0000_0000_0000,
                0 <= c.start_time < 0x1_0000_0000_0000_0000,
                -0x8000_0000_0000_0000 <= off < 0x8000_0000_0000_0000,
                -0x1_0000_0000 <= z.num <= 0x1_0000_0000,
                1 <= z.den <= 0x1_0000_0000_0000,
                -0x8000_0000 <= m.x < 0x8000_0000,
    ;
    }
    let num = z.num as i128;
    let den = z.den as i128;
    let w_num: i128 = (c.elapsed_time as i128) * num;
    let x_num: i128 = ((c.start_time as i128) - (off as i128)) * num;
    let mx: i128 = (m.x as i128) * den;
    x_num <= mx && mx <= x_num + w_num && 34 * (c.depth as i64) <= (m.y as i64) && (m.y as i64)
        <= 34 * (c.depth as i64) + 32
}

/// What the context action does to the view.  On the "call" tag's only
/// action, with a live selection, a record of positive length, and a
/// non-empty viewport, the zoom becomes `0.9 * viewport / elapsed` and the
/// offset puts the record's left edge near one twentieth of the viewport;
/// anything else leaves the view unchanged.
pub open spec fn menu_selection_post(
    pre: FlameChart,
    post: FlameChart,
    calls: Seq<CallRecord>,
    tag: Seq<char>,
    sel: usize,
) -> bool {
    let act = tag == "call"@ && sel == 0 && (pre.selected_index matches Some(i) && i < calls.len()
        && calls[i as int].elapsed_time > 0) && pre.bounds_w > 0;
    if act {
        let i = pre.selected_index.unwrap() as int;
        let c = calls[i];
        let z = post.zoom;
        &&& (z.num as int, z.den as int) == norm_spec(9 * pre.bounds_w, 10 * c.elapsed_time)
        &&& (z.num > 0 ==> post.offset_x == clamp_i64(
            c.start_time - trunc_div(pre.bounds_w * z.den, 20 * z.num),
        ))
        &&& (z.num == 0 ==> post.offset_x == clamp_i64(c.start_time as int))
        &&& post == (FlameChart { zoom: post.zoom, offset_x: post.offset_x, ..pre })
    } else {
        post == pre
    }
}

/// The pan step for the arrow keys: a tenth of the viewport, in
/// nanoseconds at the clamped zoom.
pub open spec fn pan_step(v: FlameChart) -> int {
    let z = v.zoom.clamped_spec();
    (v.bounds_w * z.den) / (10 * z.num)
}

/// What handling one event does to the view, the menu stack, and the
/// event's `consumed` flag.
pub open spec fn nav_event_post(
    pre: FlameChart,
    post: FlameChart,
    e: NavEvent,
    calls: Seq<CallRecord>,
    threads: Seq<u32>,
    menus_pre: MenuContext,
    menus_post: MenuContext,
    consumed: bool,
) -> bool {
    match e {
        NavEvent::Key { key, released } => {
            &&& consumed == false
            &&& menus_post == menus_pre
            &&& (match key {
                NavKey::Left => post == (FlameChart { offset_x: post.offset_x, ..pre })
                    && post.offset_x == clamp_i64(pre.offset_x - pan_step(pre)),
                NavKey::Right => post == (FlameChart { offset_x: post.offset_x, ..pre })
                    && post.offset_x == clamp_i64(pre.offset_x + pan_step(pre)),
                NavKey::Up => post == (FlameChart { zoom: post.zoom, ..pre }) && (
                post.zoom.num as int, post.zoom.den as int) == norm_spec(
                    9 * pre.zoom.num,
                    10 * pre.zoom.den,
                ),
                NavKey::Down => post == (FlameChart { zoom: post.zoom, ..pre }) && (
                post.zoom.num as int, post.zoom.den as int) == norm_spec(
                    10 * pre.zoom.num,
                    9 * pre.zoom.den,
                ),
                NavKey::PageUp => post == (FlameChart {
                    current_thread_id: post.current_thread_id,
                    ..pre
                }) && post.current_thread_id == (if released && pre.current_thread_id
                    < threads.len() {
                    pre.current_thread_id + 1
                } else {
                    pre.current_thread_id as int
                }),
                NavKey::PageDown => post == (FlameChart {
                    current_thread_id: post.current_thread_id,
                    ..pre
                }) && post.current_thread_id == (if released && pre.current_thread_id > 0 {
                    pre.current_thread_id - 1
                } else {
                    pre.current_thread_id as int
                }),
                NavKey::Other => post == pre,
            })
        },
        NavEvent::CursorMoved { pos } => {
            &&& consumed == false
            &&& menus_post == menus_pre
            &&& (match pre.mouse_state {
                Some((b, cp, co)) => if b == NavButton::Left {
                    &&& post == (FlameChart {
                        last_mouse: pos,
                        offset_x: post.offset_x,
                        ..pre
                    })
                    &&& post.offset_x == clamp_i64(
                        trunc_div(
                            (cp.x - pos.x) * pre.zoom.clamped_spec().den,
                            pre.zoom.clamped_spec().num as int,
                        ) + co,
                    )
                } else {
                    post == (FlameChart { last_mouse: pos, ..pre })
                },
                None => post == (FlameChart { last_mouse: pos, ..pre }),
            })
        },
        NavEvent::MouseInput { button, released } => {
            &&& post.mouse_state == (if !released {
                Some((button, pre.last_mouse, pre.offset_x))
            } else {
                None::<(NavButton, Point, i64)>
            })
            &&& (if released && button == NavButton::Right {
                let f = pre.filter_of(threads);
                let off = pre.offset_x as int;
                let z = pre.zoom;
                let w = pre.bounds_w as int;
                let m = pre.last_mouse;
                &&& post == (FlameChart {
                    mouse_state: post.mouse_state,
                    selected_index: post.selected_index,
                    ..pre
                })
                &&& (match post.selected_index {
                    Some(i) => {
                        &&& i < calls.len()
                        &&& span_hit(calls[i as int], f, off, z, w, m)
                        &&& forall|k: int|
                            0 <= k < i ==> !span_hit(#[trigger] calls[k], f, off, z, w, m)
                        &&& consumed == true
                        &&& menus_post.open_menus@.len() == menus_pre.open_menus@.len() + 1
                        &&& forall|k: int|
                            0 <= k < menus_pre.open_menus@.len() ==> menus_post.open_menus@[k]
                                == menus_pre.open_menus@[k]
                        &&& menus_post.open_menus@.last().tag@ == "call"@
                        &&& menus_post.open_menus@.last().items@.len() == 1
                        &&& menus_post.open_menus@.last().items@[0]@ == "zoom into view"@
                        &&& menus_post.open_menus@.last().location == m
                        &&& menus_post.active == Some(menus_pre.open_menus@.len() as usize)
                    },
                    None => {
                        &&& forall|k: int|
                            0 <= k < calls.len() ==> !span_hit(#[trigger] calls[k], f, off, z, w, m)
                        &&& consumed == false
                        &&& menus_post == menus_pre
                    },
                })
            } else {
                &&& consumed == false
                &&& menus_post == menus_pre
                &&& post == (FlameChart { mouse_state: post.mouse_state, ..pre })
            })
        },
        NavEvent::Wheel { delta_milli, pixel } => {
            &&& consumed == false
            &&& menus_post == menus_pre
            &&& post == (FlameChart { zoom: post.zoom, ..pre })
            &&& ({
                let s: int = if pixel {
                    10_000_000
                } else {
                    100_000_000
                };
                (post.zoom.num as int, post.zoom.den as int) == norm_spec(
                    pre.zoom.num * s + delta_milli * pre.zoom.den,
                    pre.zoom.den * s,
                )
            })
        },
    }
}

/// What one frame reports: the view clamped for painting, every shown span
/// in record order with its exact geometry, and the hovered record — the
/// last shown record under the cursor, so overlapping spans resolve to the
/// one drawn on top.
pub open spec fn paint_post(
    pre: FlameChart,
    post: FlameChart,
    calls: Seq<CallRecord>,
    named_ids: Set<u32>,
    threads: Seq<u32>,
    w: u32,
    h: u32,
    spans: Seq<SpanBox>,
    hovered: Option<usize>,
) -> bool {
    let f = post.filter_of(threads);
    let off = post.offset_x as int;
    let z = post.zoom;
    let wpx = post.bounds_w as int;
    let m = post.last_mouse;
    &&& post.zoom == pre.zoom.clamped_spec()
    &&& post.offset_x == (if pre.offset_x < 0 {
        0int
    } else {
        pre.offset_x as int
    })
    &&& post.bounds_w == (if w <= MAX_DIM {
        w
    } else {
        MAX_DIM
    })
    &&& post.bounds_h == h
    &&& post == (FlameChart {
        zoom: post.zoom,
        offset_x: post.offset_x,
        bounds_w: post.bounds_w,
        bounds_h: post.bounds_h,
        ..pre
    })
    &&& forall|k: int|
        0 <= k < spans.len() ==> {
            let sb = #[trigger] spans[k];
            &&& sb.index < calls.len()
            &&& span_shown(calls[sb.index as int], f, off, z, wpx)
            &&& sb == span_box_of(
                sb.index as int,
                calls[sb.index as int],
                off,
                z,
                named_ids.contains(calls[sb.index as int].method_id),
            )
        }
    &&& forall|k1: int, k2: int|
        0 <= k1 < k2 < spans.len() ==> (#[trigger] spans[k1]).index < (#[trigger] spans[k2]).index
    &&& forall|i2: int|
        0 <= i2 < calls.len() && span_shown(#[trigger] calls[i2], f, off, z, wpx) ==> exists|k: int|
            0 <= k < spans.len() && (#[trigger] spans[k]).index == i2
    &&& (match hovered {
        Some(i2) => i2 < calls.len() && span_hit(calls[i2 as int], f, off, z, wpx, m) && forall|
            j: int,
        |
            i2 < j < calls.len() ==> !span_hit(#[trigger] calls[j], f, off, z, wpx, m),
        None => forall|j: int|
            0 <= j < calls.len() ==> !span_hit(#[trigger] calls[j], f, off, z, wpx, m),
    })
}

/// Clips a wide value into `i64` range.
pub fn clamp_to_i64(v: i128) -> (r: i64)
    ensures
        r as int == clamp_i64(v as int),
{
    if v > i64::MAX as i128 {
        i64::MAX
    } else if v < i64::MIN as i128 {
        i64::MIN
    } else {
        v as i64
    }
}

/// The capability interface the host drives — handle an event, paint,
/// report status, reset, take a menu selection — as a closed set of view
/// kinds.  The flame chart is the only kind today; another view type would
/// be another variant, leaving the host untouched.
pub enum VizView {
    Flame(FlameChart),
}

impl VizView {
    pub open spec fn wf(&self) -> bool {
        match *self {
            VizView::Flame(v) => v.wf(),
        }
    }

    /// The flame chart behind this view.
    pub open spec fn as_flame(&self) -> FlameChart {
        match *self {
            VizView::Flame(v) => v,
        }
    }

    /// The thread filter stays within the store's thread list.
    pub open spec fn filter_ok(&self, threads: Seq<u32>) -> bool {
        self.as_flame().current_thread_id <= threads.len()
    }

    /// A fresh flame-chart view.
    pub fn flame(w: u32, h: u32) -> (v: VizView)
        ensures
            v.wf(),
            v.as_flame() == FlameChart::init_spec(w, h),
    {
        VizView::Flame(FlameChart::init(w, h))
    }

    pub fn event(&mut self, e: &NavEvent, data: &VizData, menus: &mut MenuContext) -> (consumed:
        bool)
        requires
            old(self).wf(),
            old(menus).wf(),
            old(self).filter_ok(data.thread_ids@),
        ensures
            final(self).wf(),
            final(menus).wf(),
            nav_event_post(
                old(self).as_flame(),
                final(self).as_flame(),
                *e,
                data.calls@,
                data.thread_ids@,
                *old(menus),
                *final(menus),
                consumed,
            ),
    {
        match self {
            VizView::Flame(v) => v.event(e, data, menus),
        }
    }

    pub fn paint(&mut self, data: &VizData, w: u32, h: u32) -> (plan: FramePlan)
        requires
            old(self).wf(),
            old(self).filter_ok(data.thread_ids@),
        ensures
            final(self).wf(),
            paint_post(
                old(self).as_flame(),
                final(self).as_flame(),
                data.calls@,
                data.method_index@.dom(),
                data.thread_ids@,
                w,
                h,
                plan.spans@.map_values(|sb: SpanBox| sb),
                plan.hovered,
            ),
    {
        match self {
            VizView::Flame(v) => v.paint(data, w, h),
        }
    }

    pub fn status(&self, data: &VizData) -> (r: StatusInfo)
        requires
            self.filter_ok(data.thread_ids@),
        ensures
            r.offset_x == self.as_flame().offset_x,
            r.thread == self.as_flame().filter_of(data.thread_ids@),
            data.abs_end_time == 0 ==> r.pct_hundredths == 0,
            data.abs_end_time > 0 ==> r.pct_hundredths == clamp_i64(
                trunc_div(self.as_flame().offset_x * 10000, data.abs_end_time as int),
            ),
    {
        match self {
            VizView::Flame(v) => v.status(data),
        }
    }

    pub fn reset(&mut self)
        ensures
            final(self).as_flame() == (FlameChart {
                offset_x: 0,
                zoom: Zoom { num: 1, den: 20000 },
                ..old(self).as_flame()
            }),
            old(self).wf() ==> final(self).wf(),
    {
        match self {
            VizView::Flame(v) => v.reset(),
        }
    }

    pub fn menu_selection(&mut self, data: &VizData, tag: &String, sel: usize)
        requires
            old(self).wf(),
        ensures
            final(self).wf(),
            menu_selection_post(old(self).as_flame(), final(self).as_flame(), data.calls@, tag@, sel),
    {
        match self {
            VizView::Flame(v) => v.menu_selection(data, tag, sel),
        }
    }
}

/// Zoom-to-fit hits its mark.  For a viewport `w` pixels wide and a record
/// `e` nanoseconds long whose rational needs no renormalization, the zoom
/// the context action picks makes the record's span exactly `0.9 * w`
/// pixels wide — `e * num / den == 9w/10` — and the pan it picks puts the
/// record's left edge within one pixel-per-zoom step below `w / 20`
/// pixels: the edge's numerator `x` satisfies `x <= (w/20) * den` and
/// `(w/20) * den < x + num`.
pub proof fn lemma_zoom_to_fit(w: int, e: int)
    requires
        1 <= w <= MAX_DIM,
        1 <= e,
        10 * e <= crate::zoom::DEN_MAX,
    ensures
        ({
            let (num, den) = norm_spec(9 * w, 10 * e);
            &&& num == 9 * w
            &&& den == 10 * e
            &&& 10 * (e * num) == 9 * (w * den)
            &&& ({
                let step = trunc_div(w * den, 20 * num);
                &&& 20 * (step * num) <= w * den
                &&& w * den < 20 * (step * num) + 20 * num
            })
        }),
{
    let num = 9 * w;
    let den = 10 * e;
    assert(norm_spec(9 * w, 10 * e) == (num, den));
    assert(10 * (e * num) == 9 * (w * den)) by (nonlinear_arith)
        requires
            num == 9 * w,
            den == 10 * e,
    ;
    let wd = w * den;
    assert(wd >= 1) by (nonlinear_arith)
        requires
            w >= 1,
            den >= 10,
            wd == w * den,
    ;
    let step = trunc_div(wd, 20 * num);
    assert(step == wd / (20 * num));
    vstd::arithmetic::div_mod::lemma_fundamental_div_mod(wd, 20 * num);
    vstd::arithmetic::div_mod::lemma_mod_pos_bound(wd, 20 * num);
    assert(wd == (20 * num) * (wd / (20 * num)) + wd % (20 * num));
    assert(20 * (step * num) == (20 * num) * step) by (nonlinear_arith);
}

/// A stable per-method hue selector in thousandths: method ids map to the
/// same value on every frame, without a palette table.
pub fn method_hue(method_id: u32) -> (h: u32)
    ensures
        h == (method_id * 823) % 1000,
{
    ((method_id as u64 * 823) % 1000) as u32
}

} // verus!
