//! Input events and pixel geometry as plain values.
//!
//! The host translates its window library's events into these before they
//! reach the library.

use vstd::prelude::*;

verus! {

/// A cursor position in pixels.
#[derive(Debug, Copy, Clone, PartialEq, Eq, Structural)]
pub struct Point {
    pub x: i32,
    pub y: i32,
}

/// A measured label extent in pixels.
#[derive(Debug, Copy, Clone, PartialEq, Eq, Structural)]
pub struct Size {
    pub w: u32,
    pub h: u32,
}

/// An axis-aligned pixel rectangle.
#[derive(Debug, Copy, Clone, PartialEq, Eq, Structural)]
pub struct IRect {
    pub x: i64,
    pub y: i64,
    pub w: i64,
    pub h: i64,
}

/// `p` lies in `b`; edges count as inside.
pub open spec fn irect_contains(b: IRect, p: Point) -> bool {
    b.x <= p.x <= b.x + b.w && b.y <= p.y <= b.y + b.h
}

/// The keys the flame chart reacts to.
#[derive(Debug, Copy, Clone, PartialEq, Eq, Structural)]
pub enum NavKey {
    Left,
    Right,
    Up,
    Down,
    PageUp,
    PageDown,
    Other,
}

/// Mouse buttons.
#[derive(Debug, Copy, Clone, PartialEq, Eq, Structural)]
pub enum NavButton {
    Left,
    Right,
    Other,
}

/// One input event.
#[derive(Debug, Copy, Clone, PartialEq, Eq, Structural)]
pub enum NavEvent {
    /// A key went down or up.
    Key { key: NavKey, released: bool },
    /// The cursor moved.
    CursorMoved { pos: Point },
    /// A button went down or up.
    MouseInput { button: NavButton, released: bool },
    /// A wheel move, in thousandths of a scroll unit, line- or pixel-based.
    Wheel { delta_milli: i32, pixel: bool },
}

} // verus!
