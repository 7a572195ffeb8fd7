//! Lengths and angles.
//!
//! A length is a whole number of English Metric Units, the unit in which
//! OOXML declares geometry: 12700 to the point and 914400 to the inch. A
//! declared coordinate is therefore held exactly, and so is every hundredth
//! of a point. Sums and differences saturate at the ends of the range instead
//! of wrapping.
use vstd::prelude::*;

verus! {

/// EMU in one point: 914400 to the inch over 72 points to the inch.
pub const EMU_PER_POINT: i64 = 12700;

/// One hundredth of a point in EMU.
pub const CENTIPOINT: i64 = 127;

/// The fixed-point one of [`Direction`]: `2^30`.
pub const DIRECTION_ONE: i64 = 1073741824;

/// `x` brought into the range of an `i64`.
pub open spec fn sat(x: int) -> int {
    if x < i64::MIN {
        i64::MIN as int
    } else if x > i64::MAX {
        i64::MAX as int
    } else {
        x
    }
}

/// Whether `x` is a length that can be held without saturating.
pub open spec fn fits(x: int) -> bool {
    i64::MIN <= x <= i64::MAX
}

/// `x` brought into the range of an `i64`.
pub fn saturate(x: i128) -> (r: i64)
    ensures
        r == sat(x as int),
{
    if x < i64::MIN as i128 {
        i64::MIN
    } else if x > i64::MAX as i128 {
        i64::MAX
    } else {
        x as i64
    }
}

/// A length, in EMU.
#[derive(Clone, Copy, PartialEq, Eq, Structural, Debug)]
pub struct Pt {
    pub emu: i64,
}

/// The length `x` EMU, saturated.
pub open spec fn pt(x: int) -> Pt {
    Pt { emu: sat(x) as i64 }
}

impl Pt {
    /// The sum of two lengths, in contracts.
    pub open spec fn spec_plus(self, other: Pt) -> Pt {
        pt(self.emu + other.emu)
    }

    /// The difference of two lengths, in contracts.
    pub open spec fn spec_minus(self, other: Pt) -> Pt {
        pt(self.emu - other.emu)
    }

    /// The smaller of two lengths, in contracts.
    pub open spec fn spec_min(self, other: Pt) -> Pt {
        if other.emu < self.emu {
            other
        } else {
            self
        }
    }

    /// The larger of two lengths, in contracts.
    pub open spec fn spec_max(self, other: Pt) -> Pt {
        if other.emu > self.emu {
            other
        } else {
            self
        }
    }

    /// No length, in contracts.
    pub open spec fn spec_zero() -> Pt {
        Pt { emu: 0 }
    }

    /// No length.
    pub fn zero() -> (r: Pt)
        ensures
            r == Pt::spec_zero(),
    {
        Pt { emu: 0 }
    }

    /// A length of `points` whole points.
    pub fn new(points: i64) -> (r: Pt)
        ensures
            r == pt(points * EMU_PER_POINT),
    {
        Pt { emu: saturate(points as i128 * 12700) }
    }

    /// A length of `emu` EMU.
    pub fn from_emu(emu: i64) -> (r: Pt)
        ensures
            r.emu == emu,
    {
        Pt { emu }
    }

    /// The length in EMU.
    pub fn raw(&self) -> (r: i64)
        ensures
            r == self.emu,
    {
        self.emu
    }

    /// The sum of two lengths.
    pub fn plus(self, other: Pt) -> (r: Pt)
        ensures
            r == self.spec_plus(other),
    {
        Pt { emu: saturate(self.emu as i128 + other.emu as i128) }
    }

    /// The difference of two lengths.
    pub fn minus(self, other: Pt) -> (r: Pt)
        ensures
            r == self.spec_minus(other),
    {
        Pt { emu: saturate(self.emu as i128 - other.emu as i128) }
    }

    /// The smaller of two lengths.
    pub fn min(self, other: Pt) -> (r: Pt)
        ensures
            r == self.spec_min(other),
    {
        if other.emu < self.emu {
            other
        } else {
            self
        }
    }

    /// The larger of two lengths.
    pub fn max(self, other: Pt) -> (r: Pt)
        ensures
            r == self.spec_max(other),
    {
        if other.emu > self.emu {
            other
        } else {
            self
        }
    }
}

/// An angle in 60000ths of a degree.
#[derive(Clone, Copy, PartialEq, Eq, Structural, Debug)]
pub struct Angle {
    pub units: i64,
}

/// The sine and cosine of a clockwise turn, as multiples of `2^-30`.
#[derive(Clone, Copy, PartialEq, Eq, Structural, Debug)]
pub struct Direction {
    pub sin: i64,
    pub cos: i64,
}

impl Direction {
    /// Whether neither part is larger than one.
    pub open spec fn ok(self) -> bool {
        -DIRECTION_ONE <= self.sin <= DIRECTION_ONE && -DIRECTION_ONE <= self.cos <= DIRECTION_ONE
    }
}

/// `v / 2^31`, to the nearest whole number, halves upwards.
pub open spec fn round_half_q30(v: int) -> int {
    (v + 1073741824) / 2147483648
}

/// `v / 2^31`, to the nearest whole number, halves upwards.
pub fn rounded_half_q30(v: i128) -> (r: i128)
    requires
        -0x4000_0000_0000_0000_0000_0000_0000_0000 <= v <= 0x4000_0000_0000_0000_0000_0000_0000_0000,
    ensures
        r == round_half_q30(v as int),
{
    let w: i128 = v + 1073741824;
    if w >= 0 {
        w / 2147483648
    } else {
        let m: i128 = -w;
        let q: i128 = m / 2147483648;
        let rest: i128 = m % 2147483648;
        if rest == 0 {
            -q
        } else {
            -q - 1
        }
    }
}

/// The product of a fixed-point factor and a length.
pub fn scaled(f: i64, v: i128) -> (r: i128)
    requires
        -DIRECTION_ONE <= f <= DIRECTION_ONE,
        -0x8_0000_0000_0000_0000 <= v <= 0x8_0000_0000_0000_0000,
    ensures
        r == f * v,
        -0x2_0000_0000_0000_0000_0000_0000 <= r <= 0x2_0000_0000_0000_0000_0000_0000,
{
    assert(-0x2_0000_0000_0000_0000_0000_0000 <= f * v <= 0x2_0000_0000_0000_0000_0000_0000)
        by (nonlinear_arith)
        requires
            -1073741824 <= f <= 1073741824,
            -0x8_0000_0000_0000_0000 <= v <= 0x8_0000_0000_0000_0000,
    ;
    (f as i128) * v
}

impl Angle {
    /// The direction of a turn by a multiple of a right angle, which needs no
    /// rounding; `None` for every other turn.
    pub fn right_angle(self) -> (r: Option<Direction>)
        ensures
            match r {
                Some(d) => (self.units as int % 21_600_000) % 5_400_000 == 0 && d
                    == right_angle_direction((self.units as int % 21_600_000) / 5_400_000),
                None => (self.units as int % 21_600_000) % 5_400_000 != 0,
            },
    {
        let full: i64 = 21_600_000;
        let rest: i64 = self.units % full;
        let turned: i64 = if rest < 0 {
            rest + full
        } else {
            rest
        };
        assert(turned == self.units as int % 21_600_000);
        if turned % 5_400_000 != 0 {
            None
        } else {
            let quarter: i64 = turned / 5_400_000;
            if quarter == 0 {
                Some(Direction { sin: 0, cos: DIRECTION_ONE })
            } else if quarter == 1 {
                Some(Direction { sin: DIRECTION_ONE, cos: 0 })
            } else if quarter == 2 {
                Some(Direction { sin: 0, cos: -DIRECTION_ONE })
            } else {
                Some(Direction { sin: -DIRECTION_ONE, cos: 0 })
            }
        }
    }
}

/// The direction of `n` clockwise quarter turns, `n` from 0 to 3.
pub open spec fn right_angle_direction(n: int) -> Direction {
    if n == 0 {
        Direction { sin: 0, cos: DIRECTION_ONE }
    } else if n == 1 {
        Direction { sin: DIRECTION_ONE, cos: 0 }
    } else if n == 2 {
        Direction { sin: 0, cos: (-DIRECTION_ONE) as i64 }
    } else {
        Direction { sin: (-DIRECTION_ONE) as i64, cos: 0 }
    }
}

}
