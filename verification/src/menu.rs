//! The popup-menu controller: a stack of transient menus.
//!
//! `popup` opens a menu on top of the stack.  Painting measures each item
//! once and caches the menu's bounding box.  Cursor moves pick the active
//! menu (the first measured menu under the cursor) and its hovered row; a
//! left-button release over a hovered row closes the stack and reports the
//! menu's tag with the row's index.

use vstd::prelude::*;
use crate::event::{IRect, NavButton, NavEvent, Point, Size, irect_contains};

verus! {

/// Labels wider or taller than this are treated as this size when measured.
pub const SIZE_MAX: u32 = 4096;

/// The most items one menu keeps; `popup` drops the rest.
pub const ITEMS_MAX: usize = 4096;

/// One open menu: an anchor point, a tag naming its origin, labelled items,
/// the item extents once measured, the bounding box cached from them, and
/// the hovered row.
pub struct Menu {
    pub location: Point,
    pub tag: String,
    pub items: Vec<String>,
    pub sizes: Option<Vec<Size>>,
    pub bounds: Option<IRect>,
    pub selected: Option<usize>,
}

/// A size as stored after measuring: clipped to `SIZE_MAX`.
pub open spec fn clamp_size_spec(s: Size) -> Size {
    Size {
        w: if s.w > SIZE_MAX {
            SIZE_MAX
        } else {
            s.w
        },
        h: if s.h > SIZE_MAX {
            SIZE_MAX
        } else {
            s.h
        },
    }
}

/// The height of rows `0 .. k`.
pub open spec fn sum_h(sizes: Seq<Size>, k: int) -> int
    decreases k,
{
    if k <= 0 {
        0
    } else {
        sum_h(sizes, k - 1) + sizes[k - 1].h
    }
}

/// The menu's width: four pixels of padding grown to fit each label.
pub open spec fn menu_width(sizes: Seq<Size>, k: int) -> int
    decreases k,
{
    if k <= 0 {
        4
    } else {
        let p = menu_width(sizes, k - 1);
        if sizes[k - 1].w + 4 > p {
            sizes[k - 1].w + 4
        } else {
            p
        }
    }
}

/// The cached bounding box: four pixels up and left of the anchor, wide
/// enough for the widest label and tall enough for all rows.
pub open spec fn bounds_of(loc: Point, sizes: Seq<Size>) -> IRect {
    IRect {
        x: (loc.x - 4) as i64,
        y: (loc.y - 4) as i64,
        w: menu_width(sizes, sizes.len() as int) as i64,
        h: (4 + sum_h(sizes, sizes.len() as int)) as i64,
    }
}

/// The cursor's y lies strictly inside row `j`, rows stacking downwards
/// from the menu's anchor line.
pub open spec fn in_row(loc_y: int, sizes: Seq<Size>, j: int, y: int) -> bool {
    loc_y + sum_h(sizes, j) < y < loc_y + sum_h(sizes, j) + sizes[j].h
}

/// Row heights within bounds keep every row sum small.
proof fn lemma_sum_h_bound(sizes: Seq<Size>, k: int)
    requires
        0 <= k <= sizes.len(),
        forall|j: int| 0 <= j < sizes.len() ==> (#[trigger] sizes[j]).h <= SIZE_MAX,
    ensures
        0 <= sum_h(sizes, k) <= k * (SIZE_MAX as int),
    decreases k,
{
    if k > 0 {
        lemma_sum_h_bound(sizes, k - 1);
        assert(k * (SIZE_MAX as int) == (k - 1) * (SIZE_MAX as int) + SIZE_MAX) by (nonlinear_arith);
    }
}

/// Label widths within bounds keep the menu's width small.
proof fn lemma_menu_width_bound(sizes: Seq<Size>, k: int)
    requires
        0 <= k <= sizes.len(),
        forall|j: int| 0 <= j < sizes.len() ==> (#[trigger] sizes[j]).w <= SIZE_MAX,
    ensures
        4 <= menu_width(sizes, k) <= 4 + SIZE_MAX,
    decreases k,
{
    if k > 0 {
        lemma_menu_width_bound(sizes, k - 1);
    }
}

impl Menu {
    pub open spec fn wf(&self) -> bool {
        &&& self.items@.len() <= ITEMS_MAX
        &&& (self.sizes is Some <==> self.bounds is Some)
        &&& (self.sizes matches Some(s) ==> s@.len() == self.items@.len())
        &&& (self.sizes matches Some(s) ==> forall|j: int|
            0 <= j < s@.len() ==> (#[trigger] s@[j]).w <= SIZE_MAX && s@[j].h <= SIZE_MAX)
        &&& (self.bounds matches Some(b) ==> self.sizes matches Some(s) && b == bounds_of(
            self.location,
            s@,
        ))
        &&& (self.selected matches Some(j) ==> j < self.items@.len())
    }
}

/// One row of a menu as the host should draw it: the label position, the
/// highlight row's extent, and whether the row is hovered.
#[derive(Debug, Copy, Clone, PartialEq, Eq, Structural)]
pub struct ItemDraw {
    pub x: i64,
    pub y: i64,
    pub row_w: i64,
    pub h: i64,
    pub highlighted: bool,
}

/// Row `j` of a measured menu as it should be drawn.
pub open spec fn item_draw_spec(b: IRect, s: Seq<Size>, sel: Option<usize>, j: int) -> ItemDraw {
    ItemDraw {
        x: (b.x + 2) as i64,
        y: (b.y + 2 + sum_h(s, j)) as i64,
        row_w: (b.w - 4) as i64,
        h: s[j].h as i64,
        highlighted: sel == Some(j as usize),
    }
}

/// One menu as the host should draw it: its box, then its rows in order.
pub struct MenuDraw {
    pub bounds: IRect,
    pub items: Vec<ItemDraw>,
}

/// The stack of open menus and which of them the cursor is over.
pub struct MenuContext {
    pub open_menus: Vec<Menu>,
    pub active: Option<usize>,
}

/// What routing one event through the menu stack does: how the active
/// menu and hovered row are re-derived on cursor moves, when a selection
/// is reported, and when the stack closes.
pub open spec fn menu_event_post(
    pre: MenuContext,
    post: MenuContext,
    e: NavEvent,
    r: Option<(String, usize)>,
) -> bool {
    match e {
        NavEvent::CursorMoved { pos } => {
            &&& r is None
            &&& post.open_menus@.len() == pre.open_menus@.len()
            &&& (match post.active {
                Some(i) => {
                    &&& i < pre.open_menus@.len()
                    &&& pre.menu_hit(i as int, pos)
                    &&& forall|k: int| 0 <= k < i ==> !pre.menu_hit(k, pos)
                },
                None => forall|k: int|
                    0 <= k < pre.open_menus@.len() ==> !pre.menu_hit(k, pos),
            })
            &&& (forall|i: int|
                0 <= i < pre.open_menus@.len() && post.active != Some(
                    i as usize,
                ) ==> post.open_menus@[i] == pre.open_menus@[i])
            &&& (post.active matches Some(i) ==> {
                let m0 = pre.open_menus@[i as int];
                let m1 = post.open_menus@[i as int];
                &&& m1 == (Menu { selected: m1.selected, ..m0 })
                &&& (match m1.selected {
                    Some(j) => {
                        &&& j < m0.items@.len()
                        &&& in_row(
                            m0.location.y as int,
                            m0.sizes.unwrap()@,
                            j as int,
                            pos.y as int,
                        )
                        &&& forall|k: int|
                            0 <= k < j ==> !in_row(
                                m0.location.y as int,
                                m0.sizes.unwrap()@,
                                k,
                                pos.y as int,
                            )
                    },
                    None => forall|k: int|
                        0 <= k < m0.items@.len() ==> !in_row(
                            m0.location.y as int,
                            m0.sizes.unwrap()@,
                            k,
                            pos.y as int,
                        ),
                })
            })
        },
        NavEvent::MouseInput { button, released } => ({
            let taken = pre.active matches Some(i) && released && button
                == NavButton::Left && pre.open_menus@[i as int].selected is Some;
            &&& (taken ==> {
                let i = pre.active.unwrap() as int;
                let j = pre.open_menus@[i].selected.unwrap();
                &&& r matches Some(t) && t.0@ == pre.open_menus@[i].tag@ && t.1 == j
                &&& post.open_menus@.len() == 0
                &&& post.active is None
            })
            &&& (!taken ==> {
                &&& r is None
                &&& (pre.active is None ==> post.open_menus@.len() == 0
                    && post.active is None)
                &&& (pre.active is Some ==> post.open_menus@
                    == pre.open_menus@ && post.active == pre.active)
            })
        }),
        _ => r is None && post.open_menus@ == pre.open_menus@
            && post.active == pre.active,
    }
}

impl MenuContext {
    pub open spec fn wf(&self) -> bool {
        &&& forall|i: int| 0 <= i < self.open_menus@.len() ==> (#[trigger] self.open_menus@[i]).wf()
        &&& (self.active matches Some(i) ==> i < self.open_menus@.len())
    }

    /// Menu `i` has a cached box and the cursor lies in it.
    pub open spec fn menu_hit(&self, i: int, p: Point) -> bool {
        self.open_menus@[i].bounds matches Some(b) && irect_contains(b, p)
    }

    pub fn new() -> (mx: MenuContext)
        ensures
            mx.open_menus@.len() == 0,
            mx.active is None,
            mx.wf(),
    {
        MenuContext { open_menus: Vec::new(), active: None }
    }

    /// How many menus are open.
    pub fn open_count(&self) -> (n: usize)
        ensures
            n == self.open_menus@.len(),
    {
        self.open_menus.len()
    }

    /// Opens one more menu on top of the stack, unmeasured and with no
    /// hovered row, and makes it the active one; the menus already open
    /// stay as they are.
    pub fn popup(&mut self, items: Vec<String>, p: Point, tag: String)
        requires
            old(self).wf(),
        ensures
            final(self).wf(),
            final(self).open_menus@.len() == old(self).open_menus@.len() + 1,
            forall|i: int|
                0 <= i < old(self).open_menus@.len() ==> final(self).open_menus@[i] == old(
                    self,
                ).open_menus@[i],
            ({
                let m = final(self).open_menus@.last();
                &&& m.location == p
                &&& m.tag == tag
                &&& m.items@ == (if items@.len() <= ITEMS_MAX {
                    items@
                } else {
                    items@.take(ITEMS_MAX as int)
                })
                &&& m.sizes is None
                &&& m.bounds is None
                &&& m.selected is None
            }),
            final(self).active == Some(old(self).open_menus@.len() as usize),
    {
        let mut its = items;
        if its.len() > ITEMS_MAX {
            its.truncate(ITEMS_MAX);
        }
        self.active = Some(self.open_menus.len());
        self.open_menus.push(
            Menu { location: p, tag, items: its, sizes: None, bounds: None, selected: None },
        );
    }

    /// Routes one input event.  A cursor move re-derives the active menu —
    /// the first measured menu under the cursor — and that menu's hovered
    /// row — the first row strictly containing the cursor's y, counted from
    /// the anchor line.  A left-button release with a hovered row closes
    /// every menu and reports the active menu's tag and the row's index;
    /// any button event while no menu is active closes every menu.
    pub fn event(&mut self, e: &NavEvent) -> (r: Option<(String, usize)>)
        requires
            old(self).wf(),
        ensures
            final(self).wf(),
            menu_event_post(*old(self), *final(self), *e, r),
    {
        match e {
            NavEvent::CursorMoved { pos } => {
                let p = *pos;
                self.active = None;
                let ghost menus0 = self.open_menus@;
                let n = self.open_menus.len();
                let mut hit_ix: Option<usize> = None;
                let mut i: usize = 0;
                while i < n
                    invariant_except_break
                        0 <= i <= n,
                        n == menus0.len(),
                        self.open_menus@ == menus0,
                        self.active is None,
                        hit_ix is None,
                        forall|k: int|
                            0 <= k < i ==> !((#[trigger] menus0[k]).bounds matches Some(b) && irect_contains(
                                b,
                                p,
                            )),
                    ensures
                        self.open_menus@ == menus0,
                        self.active is None,
                        hit_ix matches Some(k) ==> k < n && ((#[trigger] menus0[k as int]).bounds matches Some(
                            b,
                        ) && irect_contains(b, p)) && forall|t: int|
                            0 <= t < k ==> !((#[trigger] menus0[t]).bounds matches Some(b) && irect_contains(
                                b,
                                p,
                            )),
                        hit_ix is None ==> forall|t: int|
                            0 <= t < n ==> !((#[trigger] menus0[t]).bounds matches Some(b) && irect_contains(
                                b,
                                p,
                            )),
                    decreases n - i,
                {
                    let m = &self.open_menus[i];
                    let mut found = false;
                    match m.bounds {
                        Some(b) => {
                            if b.x <= p.x as i64 && p.x as i128 <= b.x as i128 + b.w as i128
                                && b.y <= p.y as i64 && p.y as i128 <= b.y as i128 + b.h as i128 {
                                found = true;
                            }
                        },
                        None => {},
                    }
                    if found {
                        hit_ix = Some(i);
                        break ;
                    }
                    i = i + 1;
                }
                if let Some(ix) = hit_ix {
                    let mut sel: Option<usize> = None;
                    let m = &self.open_menus[ix];
                    match &m.sizes {
                        Some(sv) => {
                            let mut cur: i64 = m.location.y as i64;
                            let mut j: usize = 0;
                            proof {
                                lemma_sum_h_bound(sv@, sv@.len() as int);
                            }
                            while j < sv.len()
                                invariant_except_break
                                    0 <= j <= sv@.len(),
                                    sv@.len() <= ITEMS_MAX,
                                    forall|t: int|
                                        0 <= t < sv@.len() ==> (#[trigger] sv@[t]).h <= SIZE_MAX,
                                    cur == m.location.y + sum_h(sv@, j as int),
                                    sel is None,
                                    forall|k: int|
                                        0 <= k < j ==> !in_row(
                                            m.location.y as int,
                                            sv@,
                                            k,
                                            p.y as int,
                                        ),
                                ensures
                                    sel matches Some(sj) ==> sj < sv@.len() && in_row(
                                        m.location.y as int,
                                        sv@,
                                        sj as int,
                                        p.y as int,
                                    ) && forall|k: int|
                                        0 <= k < sj ==> !in_row(
                                            m.location.y as int,
                                            sv@,
                                            k,
                                            p.y as int,
                                        ),
                                    sel is None ==> forall|k: int|
                                        0 <= k < sv@.len() ==> !in_row(
                                            m.location.y as int,
                                            sv@,
                                            k,
                                            p.y as int,
                                        ),
                                decreases sv@.len() - j,
                            {
                                proof {
                                    lemma_sum_h_bound(sv@, j as int);
                                }
                                let h = sv[j].h as i64;
                                if (p.y as i64) > cur && (p.y as i64) < cur + h {
                                    sel = Some(j);
                                    break ;
                                }
                                cur = cur + h;
                                j = j + 1;
                            }
                        },
                        None => {},
                    }
                    self.active = Some(ix);
                    let mr = &mut self.open_menus[ix];
                    mr.selected = sel;
                }
                None
            },
            NavEvent::MouseInput { button, released } => {
                let mut rv: Option<(String, usize)> = None;
                if let Some(i) = self.active {
                    if *released && matches!(button, NavButton::Left) {
                        let m = &self.open_menus[i];
                        if let Some(j) = m.selected {
                            rv = Some((m.tag.clone(), j));
                            self.active = None;
                        }
                    }
                }
                if self.active.is_none() {
                    self.open_menus.clear();
                }
                rv
            },
            _ => None,
        }
    }

    /// Lays out and describes every open menu.  A menu not yet measured
    /// takes its item extents from `measured` — clipped to `SIZE_MAX` — and
    /// caches its bounding box, computed once; a measured menu keeps its
    /// cache.  Each draw holds the box and one row per item: the label
    /// position, the highlight row's extent, and whether it is hovered.
    pub fn paint(&mut self, measured: &Vec<Vec<Size>>) -> (draws: Vec<MenuDraw>)
        requires
            old(self).wf(),
            measured@.len() == old(self).open_menus@.len(),
            forall|i: int|
                0 <= i < old(self).open_menus@.len() ==> (#[trigger] measured@[i])@.len() == old(
                    self,
                ).open_menus@[i].items@.len(),
        ensures
            final(self).wf(),
            final(self).active == old(self).active,
            final(self).open_menus@.len() == old(self).open_menus@.len(),
            forall|i: int|
                0 <= i < old(self).open_menus@.len() ==> {
                    let m0 = old(self).open_menus@[i];
                    let m1 = #[trigger] final(self).open_menus@[i];
                    if m0.sizes is Some {
                        m1 == m0
                    } else {
                        &&& m1.sizes matches Some(s) && s@ == measured@[i]@.map_values(
                            |z: Size| clamp_size_spec(z),
                        )
                        &&& m1.bounds == Some(bounds_of(m0.location, m1.sizes.unwrap()@))
                        &&& m1.location == m0.location
                        &&& m1.tag == m0.tag
                        &&& m1.items == m0.items
                        &&& m1.selected == m0.selected
                    }
                },
            draws@.len() == old(self).open_menus@.len(),
            forall|i: int|
                0 <= i < draws@.len() ==> {
                    let m1 = final(self).open_menus@[i];
                    let b = m1.bounds.unwrap();
                    let s = m1.sizes.unwrap()@;
                    &&& (#[trigger] draws@[i]).bounds == b
                    &&& draws@[i].items@.len() == m1.items@.len()
                    &&& forall|j: int|
                        0 <= j < s.len() ==> #[trigger] draws@[i].items@[j] == item_draw_spec(
                            b,
                            s,
                            m1.selected,
                            j,
                        )
                },
    {
        let mut draws: Vec<MenuDraw> = Vec::new();
        let n = self.open_menus.len();
        let mut i: usize = 0;
        while i < n
            invariant
                0 <= i <= n,
                n == old(self).open_menus@.len(),
                self.open_menus@.len() == n,
                self.active == old(self).active,
                measured@.len() == n,
                forall|k: int|
                    0 <= k < n ==> (#[trigger] measured@[k])@.len() == old(
                        self,
                    ).open_menus@[k].items@.len(),
                forall|k: int| 0 <= k < n ==> (#[trigger] self.open_menus@[k]).wf(),
                old(self).active matches Some(a) ==> a < n,
                forall|k: int| i <= k < n ==> self.open_menus@[k] == old(self).open_menus@[k],
                forall|k: int|
                    0 <= k < i ==> {
                        let m0 = old(self).open_menus@[k];
                        let m1 = #[trigger] self.open_menus@[k];
                        if m0.sizes is Some {
                            m1 == m0
                        } else {
                            &&& m1.sizes matches Some(s) && s@ == measured@[k]@.map_values(
                                |z: Size| clamp_size_spec(z),
                            )
                            &&& m1.bounds == Some(bounds_of(m0.location, m1.sizes.unwrap()@))
                            &&& m1.location == m0.location
                            &&& m1.tag == m0.tag
                            &&& m1.items == m0.items
                            &&& m1.selected == m0.selected
                        }
                    },
                forall|k: int| 0 <= k < i ==> (#[trigger] self.open_menus@[k]).sizes is Some,
                draws@.len() == i,
                forall|k: int|
                    0 <= k < i ==> {
                        let m1 = self.open_menus@[k];
                        let b = m1.bounds.unwrap();
                        let s = m1.sizes.unwrap()@;
                        &&& (#[trigger] draws@[k]).bounds == b
                        &&& draws@[k].items@.len() == m1.items@.len()
                        &&& forall|j: int|
                            0 <= j < s.len() ==> #[trigger] draws@[k].items@[j] == item_draw_spec(
                                b,
                                s,
                                m1.selected,
                                j,
                            )
                    },
            decreases n - i,
        {
            let need = self.open_menus[i].sizes.is_none();
            if need {
                let src = &measured[i];
                let mut sv: Vec<Size> = Vec::new();
                let mut j: usize = 0;
                while j < src.len()
                    invariant
                        0 <= j <= src@.len(),
                        sv@.len() == j,
                        sv@ == src@.take(j as int).map_values(|z: Size| clamp_size_spec(z)),
                        forall|t: int|
                            0 <= t < j ==> (#[trigger] sv@[t]).w <= SIZE_MAX && sv@[t].h
                                <= SIZE_MAX,
                    decreases src@.len() - j,
                {
                    let z0 = src[j];
                    let cw = if z0.w > SIZE_MAX {
                        SIZE_MAX
                    } else {
                        z0.w
                    };
                    let ch = if z0.h > SIZE_MAX {
                        SIZE_MAX
                    } else {
                        z0.h
                    };
                    sv.push(Size { w: cw, h: ch });
                    proof {
                        assert(src@.take(j + 1) =~= src@.take(j as int).push(z0));
                        assert(sv@ =~= src@.take(j + 1).map_values(|z: Size| clamp_size_spec(z)));
                    }
                    j = j + 1;
                }
                proof {
                    assert(src@.take(src@.len() as int) =~= src@);
                }
                let mut w: i64 = 4;
                let mut h: i64 = 4;
                let mut k: usize = 0;
                proof {
                    lemma_sum_h_bound(sv@, sv@.len() as int);
                    assert((sv@.len() as int) * (SIZE_MAX as int) <= (ITEMS_MAX as int) * (
                    SIZE_MAX as int)) by (nonlinear_arith)
                        requires
                            sv@.len() <= ITEMS_MAX,
                    ;
                }
                while k < sv.len()
                    invariant
                        0 <= k <= sv@.len(),
                        sv@.len() <= ITEMS_MAX,
                        forall|t: int|
                            0 <= t < sv@.len() ==> (#[trigger] sv@[t]).w <= SIZE_MAX && sv@[t].h
                                <= SIZE_MAX,
                        w == menu_width(sv@, k as int),
                        h == 4 + sum_h(sv@, k as int),
                        4 <= w <= 4 + SIZE_MAX,
                        4 <= h <= 4 + (k as int) * (SIZE_MAX as int),
                    decreases sv@.len() - k,
                {
                    proof {
                        lemma_sum_h_bound(sv@, k as int);
                        assert((k + 1) * (SIZE_MAX as int) == (k as int) * (SIZE_MAX as int)
                            + SIZE_MAX) by (nonlinear_arith);
                        assert((k as int) * (SIZE_MAX as int) <= (ITEMS_MAX as int) * (
                        SIZE_MAX as int)) by (nonlinear_arith)
                            requires
                                k <= ITEMS_MAX,
                        ;
                    }
                    let z = sv[k];
                    if (z.w as i64) + 4 > w {
                        w = z.w as i64 + 4;
                    }
                    h = h + z.h as i64;
                    k = k + 1;
                }
                let loc = self.open_menus[i].location;
                let b = IRect { x: loc.x as i64 - 4, y: loc.y as i64 - 4, w, h };
                proof {
                    assert(b == bounds_of(loc, sv@));
                }
                let mr = &mut self.open_menus[i];
                mr.sizes = Some(sv);
                mr.bounds = Some(b);
            }
            let m = &self.open_menus[i];
            proof {
                assert(m.wf()) by {
                    if !need {
                        assert(self.open_menus@[i as int].wf());
                    }
                }
            }
            match (&m.sizes, &m.bounds) {
                (Some(sv), Some(bref)) => {
                    let b = *bref;
                    proof {
                        lemma_sum_h_bound(sv@, sv@.len() as int);
                        lemma_menu_width_bound(sv@, sv@.len() as int);
                        assert((sv@.len() as int) * (SIZE_MAX as int) <= (ITEMS_MAX as int) * (
                        SIZE_MAX as int)) by (nonlinear_arith)
                            requires
                                sv@.len() <= ITEMS_MAX,
                        ;
                        assert(b == bounds_of(m.location, sv@));
                    }
                    let mut its: Vec<ItemDraw> = Vec::new();
                    let mut y: i64 = b.y + 2;
                    let mut j: usize = 0;
                    while j < sv.len()
                        invariant
                            0 <= j <= sv@.len(),
                            sv@.len() <= ITEMS_MAX,
                            forall|t: int| 0 <= t < sv@.len() ==> (#[trigger] sv@[t]).h <= SIZE_MAX,
                            its@.len() == j,
                            y == b.y + 2 + sum_h(sv@, j as int),
                            -0x8000_0005i64 <= b.x <= 0x8000_0000i64,
                            -0x8000_0005i64 <= b.y <= 0x8000_0000i64,
                            4 <= b.w <= 4 + SIZE_MAX,
                            forall|t: int|
                                0 <= t < j ==> #[trigger] its@[t] == item_draw_spec(
                                    b,
                                    sv@,
                                    m.selected,
                                    t,
                                ),
                        decreases sv@.len() - j,
                    {
                        proof {
                            lemma_sum_h_bound(sv@, j as int);
                            assert((j as int) * (SIZE_MAX as int) <= (ITEMS_MAX as int) * (
                            SIZE_MAX as int)) by (nonlinear_arith)
                                requires
                                    j <= ITEMS_MAX,
                            ;
                        }
                        let h = sv[j].h as i64;
                        let hl = match m.selected {
                            Some(sj) => sj == j,
                            None => false,
                        };
                        its.push(
                            ItemDraw { x: b.x + 2, y, row_w: b.w - 4, h, highlighted: hl },
                        );
                        y = y + h;
                        j = j + 1;
                    }
                    draws.push(MenuDraw { bounds: b, items: its });
                },
                _ => {
                    proof {
                        assert(false);
                    }
                },
            }
            i = i + 1;
        }
        draws
    }
}

} // verus!
