//! The horizontal zoom factor as an exact rational.
//!
//! Pixels-per-nanosecond is the rational `num / den` instead of a float, so
//! every coordinate the view computes is exact.  Operations that would grow
//! the parts beyond fixed bounds halve both, which keeps the ratio up to
//! rounding.

use vstd::prelude::*;

verus! {

/// Bound on the numerator's magnitude.
pub const NUM_MAX: i64 = 0x1_0000_0000;

/// Bound on the denominator.
pub const DEN_MAX: i64 = 0x1_0000_0000_0000;

/// Pixels per nanosecond as the rational `num / den`.  `num` may become
/// zero or negative through wheel moves; painting clamps to a positive
/// floor first.
#[derive(Debug, Copy, Clone, PartialEq, Eq, Structural)]
pub struct Zoom {
    pub num: i64,
    pub den: i64,
}

/// Halving that rounds towards zero, as `/ 2` does on machine integers.
pub open spec fn half(n: int) -> int {
    if n >= 0 {
        n / 2
    } else {
        -((-n) / 2)
    }
}

/// Brings a rational into the representable range by halving both parts;
/// with the denominator down to one, an oversized numerator is clipped.
pub open spec fn norm_spec(n: int, d: int) -> (int, int)
    recommends
        d >= 1,
    decreases d,
{
    if -NUM_MAX <= n <= NUM_MAX && d <= DEN_MAX {
        (n, d)
    } else if d >= 2 {
        norm_spec(half(n), d / 2)
    } else if n > NUM_MAX {
        (NUM_MAX as int, d)
    } else {
        (-NUM_MAX as int, d)
    }
}

impl Zoom {
    /// The representable range; every zoom the view stores satisfies it.
    pub open spec fn wf(&self) -> bool {
        1 <= self.den <= DEN_MAX && -NUM_MAX <= self.num <= NUM_MAX
    }

    /// The zoom a fresh view starts with: 1/20000 pixels per nanosecond.
    pub fn initial() -> (z: Zoom)
        ensures
            z == (Zoom { num: 1, den: 20000 }),
            z.wf(),
    {
        Zoom { num: 1, den: 20000 }
    }

    /// The paint-time floor: never below one pixel per million nanoseconds.
    pub open spec fn clamped_spec(&self) -> Zoom {
        if self.num * 1000000 < self.den {
            Zoom { num: 1, den: 1000000 }
        } else {
            *self
        }
    }

    /// Clamps to the positive floor.
    pub fn clamped(&self) -> (r: Zoom)
        requires
            self.wf(),
        ensures
            r == self.clamped_spec(),
            r.wf(),
            r.num >= 1,
    {
        if (self.num as i128) * 1000000 < (self.den as i128) {
            Zoom { num: 1, den: 1000000 }
        } else {
            *self
        }
    }

    /// Rebuilds a zoom from wide intermediate parts.
    pub fn normalize(n0: i128, d0: i128) -> (z: Zoom)
        requires
            1 <= d0 <= 0x1_0000_0000_0000_0000_0000_0000_0000i128,
            -0x1_0000_0000_0000_0000_0000_0000_0000i128 <= n0
                <= 0x1_0000_0000_0000_0000_0000_0000_0000i128,
        ensures
            (z.num as int, z.den as int) == norm_spec(n0 as int, d0 as int),
            z.wf(),
    {
        let mut n = n0;
        let mut d = d0;
        while (n < -(NUM_MAX as i128) || n > NUM_MAX as i128 || d > DEN_MAX as i128) && d >= 2
            invariant
                1 <= d <= d0,
                -0x1_0000_0000_0000_0000_0000_0000_0000i128 <= n
                    <= 0x1_0000_0000_0000_0000_0000_0000_0000i128,
                norm_spec(n0 as int, d0 as int) == norm_spec(n as int, d as int),
            decreases d,
        {
            n = if n >= 0 {
                n / 2
            } else {
                -((-n) / 2)
            };
            d = d / 2;
        }
        if n > NUM_MAX as i128 {
            Zoom { num: NUM_MAX, den: d as i64 }
        } else if n < -(NUM_MAX as i128) {
            Zoom { num: -NUM_MAX, den: d as i64 }
        } else {
            Zoom { num: n as i64, den: d as i64 }
        }
    }

    /// One keyboard zoom-out step: the factor shrinks to nine tenths.
    pub fn times_nine_tenths(&self) -> (z: Zoom)
        requires
            self.wf(),
        ensures
            (z.num as int, z.den as int) == norm_spec(9 * self.num, 10 * self.den),
            z.wf(),
    {
        Zoom::normalize(9 * (self.num as i128), 10 * (self.den as i128))
    }

    /// One keyboard zoom-in step: the factor grows to ten ninths.
    pub fn times_ten_ninths(&self) -> (z: Zoom)
        requires
            self.wf(),
        ensures
            (z.num as int, z.den as int) == norm_spec(10 * self.num, 9 * self.den),
            z.wf(),
    {
        Zoom::normalize(10 * (self.num as i128), 9 * (self.den as i128))
    }

    /// A wheel nudge: adds `delta_milli` thousandths of the wheel unit,
    /// where one unit is 1/100000 for line scrolls and 1/10000 for pixel
    /// scrolls.
    pub fn nudged(&self, delta_milli: i32, pixel: bool) -> (z: Zoom)
        requires
            self.wf(),
        ensures
            ({
                let s: int = if pixel {
                    10_000_000
                } else {
                    100_000_000
                };
                (z.num as int, z.den as int) == norm_spec(
                    self.num * s + delta_milli * self.den,
                    self.den * s,
                )
            }),
            z.wf(),
    {
        let s: i128 = if pixel {
            10_000_000
        } else {
            100_000_000
        };
        proof {
            let a = self.num as int;
            let dd = self.den as int;
            let dm = delta_milli as int;
            let si = s as int;
            assert(-0x1_0000_0000_0000_0000_0000_0000_0000 <= a * si + dm * dd
                <= 0x1_0000_0000_0000_0000_0000_0000_0000 && si <= dd * si
                <= 0x1_0000_0000_0000_0000_0000_0000_0000) by (nonlinear_arith)
                requires
                    -0x1_0000_0000 <= a <= 0x1_0000_0000,
                    1 <= dd <= 0x1_0000_0000_0000,
                    -0x80000000 <= dm <= 0x80000000,
                    si == 10_000_000 || si == 100_000_000,
            ;
        }
        Zoom::normalize(
            (self.num as i128) * s + (delta_milli as i128) * (self.den as i128),
            (self.den as i128) * s,
        )
    }
}

} // verus!
